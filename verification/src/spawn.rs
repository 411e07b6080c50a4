use vstd::prelude::*;
use crate::component::EntityTemplate;
use crate::components::{Component, ComponentKind, Transform};
use crate::fixed::{clamp_coord, saturate};
use crate::geometry::{Vec2, Vec3, AABB2};
use crate::assets::AssetHandle;
use crate::entities::{named, AssetStorage, LinedefTypes, MobjTypes, SectorTypes};
use crate::map::{
    Anim, AnimState, LevelMap, Linedef, LinedefDynamic, LinedefRef, MapDynamic, SectorDynamic,
    SectorRef, SidedefDynamic, Thing,
};
use std::collections::HashMap;
use vstd::string::StringExecFns;
use crate::physics::{box_of, collider_box};
use crate::quadtree::{Quadtree, CAPACITY};
use crate::world::{Entity, World, WorldError};

verus! {

/// The height at which an entity made from `template` is placed at
/// `position`: as far below the ceiling of the sector there as the
/// template's ceiling marker says, or, without a marker, on the floor.
pub open spec fn spawn_height(template: EntityTemplate, map: LevelMap, position: Vec2) -> int {
    let subsector = map.subsectors[map.locate(LevelMap::root(), position) as int];
    let sector = map.sectors[subsector.sector_index as int];
    match template.get(ComponentKind::SpawnOnCeiling) {
        Some(Component::SpawnOnCeiling(marker)) => saturate(sector.interval.max - marker.offset),
        _ => sector.interval.min as int,
    }
}

/// The place and turn of an entity made from `template` at `position`.
pub open spec fn spawn_transform(
    template: EntityTemplate,
    map: LevelMap,
    position: Vec2,
    rotation: Vec3,
) -> Transform {
    Transform {
        position: Vec3 {
            x: position.x,
            y: position.y,
            z: spawn_height(template, map, position) as i64,
        },
        rotation,
    }
}

/// What an entity made from `template` with the transform `transform` adds
/// to the spatial index: its collider's rectangle, if it has a collider.
pub open spec fn spawn_entry(template: EntityTemplate, e: Entity, transform: Transform) -> Seq<
    (Entity, AABB2),
> {
    match template.get(ComponentKind::BoxCollider) {
        Some(Component::BoxCollider(c)) => seq![(e, collider_box(c, transform.position).plan())],
        _ => Seq::empty(),
    }
}

impl World {
    /// The entity `e` carries what a fresh entity made from `template`
    /// carries: every value of the template but the ceiling marker, which is
    /// used up, and the transform `transform`.
    pub open spec fn is_spawn_of(self, e: Entity, template: EntityTemplate, transform: Transform)
        -> bool {
        forall|k: ComponentKind| #[trigger]
            self.component(e, k) == if k == ComponentKind::Transform {
                Some(Component::Transform(transform))
            } else if k == ComponentKind::SpawnOnCeiling {
                None
            } else {
                template.get(k)
            }
    }

    /// This world is `before` with `n` more entities: every entity of
    /// `before` carries what it carried, and the new ones take no part in
    /// any mechanism.
    pub open spec fn grown_from(self, before: World, n: int) -> bool {
        &&& self.wf()
        &&& self.count() == before.count() + n
        &&& forall|o: Entity, k: ComponentKind|
            o.id < before.count() ==> #[trigger] self.component(o, k) == before.component(o, k)
        &&& self.alive@ == before.alive@ + Seq::new(n as nat, |i: int| true)
        &&& self.door_actives@ == before.door_actives@ + Seq::new(n as nat, |i: int| None)
        &&& self.switch_actives@ == before.switch_actives@ + Seq::new(n as nat, |i: int| None)
        &&& self.linedef_refs@ == before.linedef_refs@ + Seq::new(n as nat, |i: int| None)
        &&& self.sector_refs@ == before.sector_refs@ + Seq::new(n as nat, |i: int| None)
        &&& self.map_dynamics@ == before.map_dynamics@ + Seq::new(n as nat, |i: int| None)
    }
}

/// An entity made from a template with a ceiling marker hangs as far below
/// the ceiling of the sector it is placed in as the marker says, and does
/// not carry the marker; one made from a template without a marker stands on
/// the floor.
pub proof fn lemma_ceiling_marker_is_used_up(
    world: World,
    e: Entity,
    template: EntityTemplate,
    map: LevelMap,
    position: Vec2,
    rotation: Vec3,
)
    requires
        world.is_spawn_of(e, template, spawn_transform(template, map, position, rotation)),
    ensures
        world.component(e, ComponentKind::SpawnOnCeiling) is None,
        world.component(e, ComponentKind::Transform) matches Some(Component::Transform(t)) && ({
            let subsector = map.subsectors[map.locate(LevelMap::root(), position) as int];
            let sector = map.sectors[subsector.sector_index as int];
            &&& t.position.x == position.x && t.position.y == position.y
            &&& template.get(ComponentKind::SpawnOnCeiling) matches Some(
                Component::SpawnOnCeiling(marker),
            ) ==> t.position.z == saturate(sector.interval.max - marker.offset)
            &&& template.get(ComponentKind::SpawnOnCeiling) is None ==> t.position.z
                == sector.interval.min
        }),
{
    assert(world.component(e, ComponentKind::SpawnOnCeiling) is None);
    assert(world.component(e, ComponentKind::Transform) == Some(
        Component::Transform(spawn_transform(template, map, position, rotation)),
    ));
}

/// Makes an entity from `template` and places it at `position`, on the
/// floor of the sector there or hanging from its ceiling, turned by
/// `rotation`. An entity with a collider is entered in the spatial index.
pub fn spawn_from_template(
    template: &EntityTemplate,
    world: &mut World,
    map: &LevelMap,
    quadtree: &mut Quadtree,
    position: Vec2,
    rotation: Vec3,
) -> (e: Entity)
    requires
        old(world).wf(),
        map.wf(),
        old(quadtree)@.len() < CAPACITY,
    ensures
        e.id == old(world).count(),
        final(world).grown_from(*old(world), 1),
        final(world).is_spawn_of(e, *template, spawn_transform(*template, *map, position, rotation)),
        final(quadtree)@ == old(quadtree)@ + spawn_entry(
            *template,
            e,
            spawn_transform(*template, *map, position, rotation),
        ),
        final(quadtree).extent() == old(quadtree).extent(),
        old(world).moving_wf() ==> final(world).moving_wf(),
{
    let e = world.create_entity();
    let ghost created = *world;
    let applied = template.add_to_entity(e, world);
    assert(applied is Ok);
    let ghost filled = *world;
    let k = map.find_subsector_index(position);
    let sector = &map.sectors[map.subsectors[k].sector_index];
    assert(map.sector_ok(*sector));
    assert(filled.component(e, ComponentKind::SpawnOnCeiling) == (if template.get(
        ComponentKind::SpawnOnCeiling,
    ) is Some {
        template.get(ComponentKind::SpawnOnCeiling)
    } else {
        created.component(e, ComponentKind::SpawnOnCeiling)
    }));
    let z: i64 = match world.spawn_on_ceilings[e.id] {
        Some(marker) => {
            world.spawn_on_ceilings[e.id] = None;
            clamp_coord(sector.interval.max as i128 - marker.offset as i128)
        },
        None => sector.interval.min,
    };
    let transform = Transform { position: Vec3 { x: position.x, y: position.y, z }, rotation };
    world.transforms[e.id] = Some(transform);
    assert(filled.component(e, ComponentKind::BoxCollider) == (if template.get(
        ComponentKind::BoxCollider,
    ) is Some {
        template.get(ComponentKind::BoxCollider)
    } else {
        created.component(e, ComponentKind::BoxCollider)
    }));
    let at = template.position(ComponentKind::BoxCollider);
    if let Some(c) = world.box_colliders[e.id] {
        let b = box_of(&c, transform.position).to_plan();
        quadtree.insert(e, &b);
    }
    proof {
        assert(transform == spawn_transform(*template, *map, position, rotation));
        assert forall|o: Entity, kind: ComponentKind| o.id < old(world).count() implies #[trigger]
            world.component(o, kind) == old(world).component(o, kind) by {
            assert(filled.component(o, kind) == created.component(o, kind));
        }
        assert forall|kind: ComponentKind| #[trigger]
            world.component(e, kind) == if kind == ComponentKind::Transform {
                Some(Component::Transform(transform))
            } else if kind == ComponentKind::SpawnOnCeiling {
                None
            } else {
                template.get(kind)
            } by {
            assert(filled.component(e, kind) == if template.get(kind) is Some {
                template.get(kind)
            } else {
                created.component(e, kind)
            });
            assert(created.component(e, kind) is None);
        }
        assert(world.alive@ =~= old(world).alive@ + Seq::new(1, |i: int| true));
        assert(world.door_actives@ =~= old(world).door_actives@ + Seq::new(1, |i: int| None));
        assert(world.switch_actives@ =~= old(world).switch_actives@ + Seq::new(1, |i: int| None));
        assert(world.linedef_refs@ =~= old(world).linedef_refs@ + Seq::new(1, |i: int| None));
        assert(world.sector_refs@ =~= old(world).sector_refs@ + Seq::new(1, |i: int| None));
        assert(world.map_dynamics@ =~= old(world).map_dynamics@ + Seq::new(1, |i: int| None));
    }
    e
}

broadcast use vstd::std_specs::hash::group_hash_axioms;

/// Why an entity could not be made.
#[derive(Clone, Copy, Debug, PartialEq, Eq, Structural)]
pub enum SpawnError {
    /// Level data places a thing of a kind that is not in the table.
    DoomednumNotFound(u16),
    /// A linedef has a special type that is not in the table.
    LinedefTypeNotFound(u16),
    /// A sector has a special type that is not in the table.
    SectorTypeNotFound(u16),
    /// The table has no kind of the name asked for.
    NameNotFound,
    /// No entity marks the place where the first player starts.
    NoPlayerStart,
}

/// Every handle of the table names a loaded template.
pub open spec fn resolves(table: Map<u16, AssetHandle>, templates: AssetStorage<EntityTemplate>)
    -> bool {
    forall|n: u16| #[trigger] table.contains_key(n) ==> templates.spec_get(table[n]) is Some
}

/// Every handle of the list names a loaded template.
pub open spec fn names_resolve(
    names: Seq<(String, AssetHandle)>,
    templates: AssetStorage<EntityTemplate>,
) -> bool {
    forall|i: int| 0 <= i < names.len() ==> templates.spec_get((#[trigger] names[i]).1) is Some
}

/// The template of the kind of `thing`.
pub open spec fn thing_template(
    table: Map<u16, AssetHandle>,
    templates: AssetStorage<EntityTemplate>,
    thing: Thing,
) -> EntityTemplate {
    templates.spec_get(table[thing.doomednum])->0
}

/// How a thing is turned: by its angle, about the upright axis.
pub open spec fn thing_rotation(thing: Thing) -> Vec3 {
    Vec3 { x: 0, y: 0, z: thing.angle }
}

/// What the first `upto` things add to the spatial index when their
/// entities are numbered from `first` on.
pub open spec fn thing_entries(
    table: Map<u16, AssetHandle>,
    templates: AssetStorage<EntityTemplate>,
    map: LevelMap,
    things: Seq<Thing>,
    first: int,
    upto: nat,
) -> Seq<(Entity, AABB2)>
    decreases upto,
{
    if upto == 0 {
        Seq::empty()
    } else {
        let j = upto - 1;
        let template = thing_template(table, templates, things[j]);
        thing_entries(table, templates, map, things, first, j as nat) + spawn_entry(
            template,
            Entity { id: (first + j) as usize },
            spawn_transform(template, map, things[j].position, thing_rotation(things[j])),
        )
    }
}

/// Makes an entity for each thing, in order, until one is of a kind that is
/// not in the table. The things before that one stay spawned.
pub fn spawn_things(
    things: &Vec<Thing>,
    world: &mut World,
    map: &LevelMap,
    types: &MobjTypes,
    templates: &AssetStorage<EntityTemplate>,
    quadtree: &mut Quadtree,
) -> (r: Result<(), SpawnError>)
    requires
        old(world).wf(),
        map.wf(),
        resolves(types.doomednums@, *templates),
        old(world).count() + things.len() <= usize::MAX,
        old(quadtree)@.len() + things.len() <= CAPACITY,
    ensures
        ({
            let m = final(world).count() - old(world).count();
            &&& 0 <= m <= things.len()
            &&& final(world).grown_from(*old(world), m)
            &&& forall|j: int| 0 <= j < m ==> types.doomednums@.contains_key(things[j].doomednum)
            &&& forall|j: int|
                0 <= j < m ==> final(world).is_spawn_of(
                    Entity { id: (old(world).count() + j) as usize },
                    thing_template(types.doomednums@, *templates, #[trigger] things[j]),
                    spawn_transform(
                        thing_template(types.doomednums@, *templates, things[j]),
                        *map,
                        things[j].position,
                        thing_rotation(things[j]),
                    ),
                )
            &&& final(quadtree)@ == old(quadtree)@ + thing_entries(
                types.doomednums@,
                *templates,
                *map,
                things@,
                old(world).count() as int,
                m as nat,
            )
            &&& r is Ok <==> m == things.len()
            &&& r matches Err(e) ==> !types.doomednums@.contains_key(things[m].doomednum) && e
                == SpawnError::DoomednumNotFound(things[m].doomednum)
        }),
        final(quadtree).extent() == old(quadtree).extent(),
        old(world).moving_wf() ==> final(world).moving_wf(),
{
    let ghost first = world.count() as int;
    let mut j: usize = 0;
    assert(world.alive@ =~= old(world).alive@ + Seq::new(0, |i: int| true));
    assert(world.door_actives@ =~= old(world).door_actives@ + Seq::new(0, |i: int| None));
    assert(world.switch_actives@ =~= old(world).switch_actives@ + Seq::new(0, |i: int| None));
    assert(world.linedef_refs@ =~= old(world).linedef_refs@ + Seq::new(0, |i: int| None));
    assert(world.sector_refs@ =~= old(world).sector_refs@ + Seq::new(0, |i: int| None));
    assert(world.map_dynamics@ =~= old(world).map_dynamics@ + Seq::new(0, |i: int| None));
    assert(quadtree@ =~= old(quadtree)@ + Seq::<(Entity, AABB2)>::empty());
    while j < things.len()
        invariant
            j <= things.len(),
            first == old(world).count(),
            first + things.len() <= usize::MAX,
            map.wf(),
            resolves(types.doomednums@, *templates),
            world.count() == first + j,
            world.grown_from(*old(world), j as int),
            old(world).moving_wf() ==> world.moving_wf(),
            quadtree.extent() == old(quadtree).extent(),
            old(quadtree)@.len() + things.len() <= CAPACITY,
            quadtree@.len() <= old(quadtree)@.len() + j,
            forall|i: int| 0 <= i < j ==> types.doomednums@.contains_key(things[i].doomednum),
            forall|i: int|
                0 <= i < j ==> world.is_spawn_of(
                    Entity { id: (first + i) as usize },
                    thing_template(types.doomednums@, *templates, #[trigger] things[i]),
                    spawn_transform(
                        thing_template(types.doomednums@, *templates, things[i]),
                        *map,
                        things[i].position,
                        thing_rotation(things[i]),
                    ),
                ),
            quadtree@ == old(quadtree)@ + thing_entries(
                types.doomednums@,
                *templates,
                *map,
                things@,
                first,
                j as nat,
            ),
        decreases things.len() - j,
    {
        let thing = things[j];
        let handle = match types.doomednum(thing.doomednum) {
            Some(h) => h,
            None => {
                return Err(SpawnError::DoomednumNotFound(thing.doomednum));
            },
        };
        let template = match templates.get(&handle) {
            Some(t) => t,
            None => {
                // Every handle of the table names a template.
                assert(false);
                return Err(SpawnError::DoomednumNotFound(thing.doomednum));
            },
        };
        let ghost before = *world;
        let rotation = Vec3 { x: 0, y: 0, z: thing.angle };
        let e = spawn_from_template(template, world, map, quadtree, thing.position, rotation);
        proof {
            let n = j as int;
            assert(world.alive@ =~= old(world).alive@ + Seq::new((n + 1) as nat, |i: int| true));
            assert(world.door_actives@ =~= old(world).door_actives@ + Seq::new(
                (n + 1) as nat,
                |i: int| None,
            ));
            assert(world.switch_actives@ =~= old(world).switch_actives@ + Seq::new(
                (n + 1) as nat,
                |i: int| None,
            ));
            assert(world.linedef_refs@ =~= old(world).linedef_refs@ + Seq::new(
                (n + 1) as nat,
                |i: int| None,
            ));
            assert(world.sector_refs@ =~= old(world).sector_refs@ + Seq::new(
                (n + 1) as nat,
                |i: int| None,
            ));
            assert(world.map_dynamics@ =~= old(world).map_dynamics@ + Seq::new(
                (n + 1) as nat,
                |i: int| None,
            ));
            assert forall|o: Entity, k: ComponentKind| o.id < old(world).count() implies #[trigger]
                world.component(o, k) == old(world).component(o, k) by {
                assert(world.component(o, k) == before.component(o, k));
            }
            assert forall|i: int| 0 <= i < j + 1 implies world.is_spawn_of(
                Entity { id: (first + i) as usize },
                thing_template(types.doomednums@, *templates, #[trigger] things[i]),
                spawn_transform(
                    thing_template(types.doomednums@, *templates, things[i]),
                    *map,
                    things[i].position,
                    thing_rotation(things[i]),
                ),
            ) by {
                if i < j {
                    let o = Entity { id: (first + i) as usize };
                    assert(before.is_spawn_of(
                        o,
                        thing_template(types.doomednums@, *templates, things[i]),
                        spawn_transform(
                            thing_template(types.doomednums@, *templates, things[i]),
                            *map,
                            things[i].position,
                            thing_rotation(things[i]),
                        ),
                    ));
                    assert forall|k: ComponentKind| #[trigger]
                        world.component(o, k) == before.component(o, k) by {}
                }
            }
            assert(quadtree@ =~= old(quadtree)@ + thing_entries(
                types.doomednums@,
                *templates,
                *map,
                things@,
                first,
                (j + 1) as nat,
            ));
        }
        j += 1;
    }
    Ok(())
}

/// The first entity, in creation order, that marks the start of player
/// `player_num` and has a place.
pub open spec fn player_start(world: World, player_num: usize, from: int) -> Option<int>
    decreases world.count() - from,
{
    if from < 0 || from >= world.count() {
        None
    } else if world.transforms[from] is Some && (world.spawn_points[from] matches Some(p)
        && p.player_num == player_num) {
        Some(from)
    } else {
        player_start(world, player_num, from + 1)
    }
}

pub fn find_player_start(world: &World, player_num: usize) -> (r: Option<Transform>)
    requires
        world.wf(),
    ensures
        match r {
            Some(t) => player_start(*world, player_num, 0) matches Some(i) && world.transforms[i]
                == Some(t),
            None => player_start(*world, player_num, 0) is None,
        },
{
    let mut i: usize = 0;
    while i < world.len()
        invariant
            i <= world.count(),
            world.wf(),
            player_start(*world, player_num, 0) == player_start(*world, player_num, i as int),
        decreases world.count() - i,
    {
        if let (Some(t), Some(p)) = (world.transforms[i], world.spawn_points[i]) {
            if p.player_num == player_num {
                return Some(t);
            }
        }
        i += 1;
    }
    None
}

/// The name of the kind of entity that stands for a player.
pub open spec fn player_kind() -> Seq<char> {
    "PLAYER"@
}

/// Makes the entity of the first player, at the place and with the turn of
/// the entity that marks that player's start.
pub fn spawn_player(
    world: &mut World,
    map: &LevelMap,
    types: &MobjTypes,
    templates: &AssetStorage<EntityTemplate>,
    quadtree: &mut Quadtree,
) -> (r: Result<Entity, SpawnError>)
    requires
        old(world).wf(),
        map.wf(),
        names_resolve(types.names@, *templates),
        old(quadtree)@.len() < CAPACITY,
    ensures
        final(quadtree).extent() == old(quadtree).extent(),
        old(world).moving_wf() ==> final(world).moving_wf(),
        match r {
            Ok(e) => {
                &&& player_start(*old(world), 1, 0) matches Some(i)
                &&& named(types.names@, player_kind()) matches Some(h)
                &&& e.id == old(world).count()
                &&& final(world).grown_from(*old(world), 1)
                &&& ({
                    let start = old(world).transforms[i]->0;
                    let template = templates.spec_get(h)->0;
                    let t = spawn_transform(template, *map, start.position.xy(), start.rotation);
                    &&& final(world).is_spawn_of(e, template, t)
                    &&& final(quadtree)@ == old(quadtree)@ + spawn_entry(template, e, t)
                })
            },
            Err(error) => {
                &&& *final(world) == *old(world)
                &&& final(quadtree)@ == old(quadtree)@
                &&& error == if player_start(*old(world), 1, 0) is None {
                    SpawnError::NoPlayerStart
                } else {
                    SpawnError::NameNotFound
                }
                &&& player_start(*old(world), 1, 0) is None || named(
                    types.names@,
                    player_kind(),
                ) is None
            },
        },
{
    let start = match find_player_start(world, 1) {
        Some(t) => t,
        None => {
            return Err(SpawnError::NoPlayerStart);
        },
    };
    let name = String::from_str("PLAYER");
    let handle = match types.name(&name) {
        Some(h) => h,
        None => {
            return Err(SpawnError::NameNotFound);
        },
    };
    proof {
        lemma_named_is_listed(types.names@, name@);
    }
    let template = match templates.get(&handle) {
        Some(t) => t,
        None => {
            // Every handle of the list names a template.
            assert(false);
            return Err(SpawnError::NameNotFound);
        },
    };
    let e = spawn_from_template(
        template,
        world,
        map,
        quadtree,
        start.position.to_xy(),
        start.rotation,
    );
    Ok(e)
}

/// A handle found by name is one of the handles of the list.
pub proof fn lemma_named_is_listed(names: Seq<(String, AssetHandle)>, name: Seq<char>)
    ensures
        named(names, name) matches Some(h) ==> exists|i: int|
            0 <= i < names.len() && (#[trigger] names[i]).1 == h,
    decreases names.len(),
{
    if names.len() > 0 && names[0].0@ != name {
        let rest = names.drop_first();
        lemma_named_is_listed(rest, name);
        if named(rest, name) is Some {
            let h = named(rest, name)->0;
            let i = choose|i: int| 0 <= i < rest.len() && (#[trigger] rest[i]).1 == h;
            assert(names[i + 1].1 == h);
        }
    }
}

/// Where each animation of the list stands at the start: at its first
/// frame, with a whole frame to go.
pub open spec fn started_anims(anims: Seq<(AssetHandle, Anim)>) -> Seq<(AssetHandle, AnimState)> {
    Seq::new(
        anims.len(),
        |i: int| (anims[i].0, AnimState { frame: 0, time_left: anims[i].1.frame_time }),
    )
}

pub fn start_anims(anims: &Vec<(AssetHandle, Anim)>) -> (r: Vec<(AssetHandle, AnimState)>)
    ensures
        r@ == started_anims(anims@),
{
    let mut states: Vec<(AssetHandle, AnimState)> = Vec::new();
    let mut i: usize = 0;
    while i < anims.len()
        invariant
            i <= anims.len(),
            states@ == started_anims(anims@).take(i as int),
        decreases anims.len() - i,
    {
        states.push((anims[i].0, AnimState { frame: 0, time_left: anims[i].1.frame_time }));
        assert(states@ =~= started_anims(anims@).take(i + 1));
        i += 1;
    }
    assert(states@ =~= started_anims(anims@));
    states
}

/// The live state of a linedef that nothing has happened to yet: it shows
/// the textures of the level data, unmoved.
pub open spec fn is_fresh_linedef(live: LinedefDynamic, linedef: Linedef, entity: Entity) -> bool {
    &&& live.entity == entity
    &&& live.texture_offset == (Vec2 { x: 0, y: 0 })
    &&& forall|s: int|
        0 <= s < 2 ==> match (#[trigger] live.sidedefs[s], linedef.sidedefs[s]) {
            (Some(a), Some(b)) => a.textures@ == b.textures@,
            (None, None) => true,
            _ => false,
        }
}

pub fn fresh_linedef(linedef: &Linedef, entity: Entity) -> (live: LinedefDynamic)
    ensures
        is_fresh_linedef(live, *linedef, entity),
{
    let front = match linedef.sidedefs[0] {
        Some(side) => Some(SidedefDynamic { textures: side.textures }),
        None => None,
    };
    let back = match linedef.sidedefs[1] {
        Some(side) => Some(SidedefDynamic { textures: side.textures }),
        None => None,
    };
    LinedefDynamic { entity, sidedefs: [front, back], texture_offset: Vec2 { x: 0, y: 0 } }
}

/// The linedef has a face that looks into sector `sector`.
pub open spec fn borders(linedef: Linedef, sector: int) -> bool {
    ||| linedef.sidedefs[0] matches Some(s) && s.sector_index == sector
    ||| linedef.sidedefs[1] matches Some(s) && s.sector_index == sector
}

/// The smallest rectangle round the ends of those of the first `upto`
/// linedefs that border sector `sector`.
pub open spec fn sector_bounds(linedefs: Seq<Linedef>, sector: int, upto: nat) -> AABB2
    decreases upto,
{
    if upto == 0 {
        AABB2::spec_empty()
    } else {
        let before = sector_bounds(linedefs, sector, (upto - 1) as nat);
        let l = linedefs[upto - 1];
        if borders(l, sector) {
            before.spec_add_point(l.line.point).spec_add_point(l.line.end())
        } else {
            before
        }
    }
}

/// The middle of a rectangle, rounded down. The empty rectangle has its
/// middle at the origin.
pub open spec fn middle(b: AABB2) -> Vec2 {
    Vec2 { x: ((b.x.min + b.x.max) / 2) as i64, y: ((b.y.min + b.y.max) / 2) as i64 }
}

/// Where a sector's entity stands: in the middle of the rectangle round the
/// sector's linedefs, at height zero, unturned.
pub open spec fn sector_place(map: LevelMap, sector: int) -> Transform {
    let m = middle(sector_bounds(map.linedefs@, sector, map.linedefs.len() as nat));
    Transform { position: Vec3 { x: m.x, y: m.y, z: 0 }, rotation: Vec3 { x: 0, y: 0, z: 0 } }
}

pub fn sector_transform(map: &LevelMap, sector: usize) -> (t: Transform)
    requires
        map.wf(),
    ensures
        t == sector_place(*map, sector as int),
{
    let mut b = AABB2::empty();
    let mut i: usize = 0;
    while i < map.linedefs.len()
        invariant
            i <= map.linedefs.len(),
            map.wf(),
            b.wf(),
            b == sector_bounds(map.linedefs@, sector as int, i as nat),
        decreases map.linedefs.len() - i,
    {
        let l = &map.linedefs[i];
        assert(l.wf());
        let front = match l.sidedefs[0] {
            Some(s) => s.sector_index == sector,
            None => false,
        };
        let back = match l.sidedefs[1] {
            Some(s) => s.sector_index == sector,
            None => false,
        };
        if front || back {
            b.add_point(l.line.point);
            b.add_point(
                Vec2 { x: l.line.point.x + l.line.dir.x, y: l.line.point.y + l.line.dir.y },
            );
        }
        i += 1;
    }
    let x: i64 = crate::fixed::div_floor((b.x.min + b.x.max) as i128, 2) as i64;
    let y: i64 = crate::fixed::div_floor((b.y.min + b.y.max) as i128, 2) as i64;
    Transform { position: Vec3 { x, y, z: 0 }, rotation: Vec3 { x: 0, y: 0, z: 0 } }
}

/// What the special type `special` gives an entity of kind `k`: the value
/// of the type's template, or nothing for type zero, which is no type.
pub open spec fn special_component(
    table: Map<u16, AssetHandle>,
    templates: AssetStorage<EntityTemplate>,
    special: u16,
    k: ComponentKind,
) -> Option<Component> {
    if special == 0 {
        None
    } else {
        templates.spec_get(table[special])->0.get(k)
    }
}

/// Gives `e` the values of the template of the special type `special`.
/// Type zero is no type and gives nothing. Hands back the type when the
/// table does not have it.
pub fn apply_special(
    world: &mut World,
    templates: &AssetStorage<EntityTemplate>,
    table: &HashMap<u16, AssetHandle>,
    special: u16,
    e: Entity,
) -> (r: Result<(), u16>)
    requires
        old(world).wf(),
        old(world).spec_is_alive(e),
        resolves(table@, *templates),
    ensures
        final(world).wf(),
        final(world).count() == old(world).count(),
        final(world).same_mechanisms(*old(world)),
        old(world).moving_wf() ==> final(world).moving_wf(),
        r is Ok <==> special == 0 || table@.contains_key(special),
        r matches Err(n) ==> n == special && *final(world) == *old(world),
        r is Ok ==> forall|o: Entity, k: ComponentKind| #[trigger]
            final(world).component(o, k) == if o == e && special_component(
                table@,
                *templates,
                special,
                k,
            ) is Some {
                special_component(table@, *templates, special, k)
            } else {
                old(world).component(o, k)
            },
{
    if special == 0 {
        return Ok(());
    }
    let handle = match crate::entities::lookup(table, special) {
        Some(h) => h,
        None => {
            return Err(special);
        },
    };
    let template = match templates.get(&handle) {
        Some(t) => t,
        None => {
            // Every handle of the table names a template.
            assert(false);
            return Err(special);
        },
    };
    let applied = template.add_to_entity(e, world);
    assert(applied is Ok);
    Ok(())
}

/// The first position from `from` on at which `specials` holds a type, other
/// than zero, that the table lacks.
pub open spec fn first_unknown(specials: Seq<u16>, table: Map<u16, AssetHandle>, from: int)
    -> Option<int>
    decreases specials.len() - from,
{
    if from < 0 || from >= specials.len() {
        None
    } else if specials[from] != 0 && !table.contains_key(specials[from]) {
        Some(from)
    } else {
        first_unknown(specials, table, from + 1)
    }
}

pub open spec fn linedef_specials(map: LevelMap) -> Seq<u16> {
    Seq::new(map.linedefs.len() as nat, |i: int| map.linedefs[i].special_type)
}

pub open spec fn sector_specials(map: LevelMap) -> Seq<u16> {
    Seq::new(map.sectors.len() as nat, |i: int| map.sectors[i].special_type)
}

/// The entity of linedef `i` of a level whose entities are numbered from
/// `first` on: it comes `i` places after the level's own entity.
pub open spec fn linedef_entity(first: int, i: int) -> Entity {
    Entity { id: (first + 1 + i) as usize }
}

/// The entity of sector `i`: the sectors' entities follow the linedefs'.
pub open spec fn sector_entity(map: LevelMap, first: int, i: int) -> Entity {
    Entity { id: (first + 1 + map.linedefs.len() + i) as usize }
}

/// The entity of linedef `i` is alive, names its linedef, carries what the
/// linedef's special type gives it, and nothing else.
pub open spec fn linedef_row(
    world: World,
    map: LevelMap,
    templates: AssetStorage<EntityTemplate>,
    table: Map<u16, AssetHandle>,
    first: int,
    i: int,
) -> bool {
    let e = linedef_entity(first, i);
    &&& world.spec_is_alive(e)
    &&& world.linedef_refs[e.id as int] == Some(
        LinedefRef { map_entity: Entity { id: first as usize }, index: i as usize },
    )
    &&& world.sector_refs[e.id as int] is None
    &&& world.door_actives[e.id as int] is None
    &&& world.switch_actives[e.id as int] is None
    &&& world.map_dynamics[e.id as int] is None
    &&& forall|k: ComponentKind| #[trigger]
        world.component(e, k) == special_component(
            table,
            templates,
            map.linedefs[i].special_type,
            k,
        )
}

/// The entity of sector `i` is alive, names its sector, stands in the
/// middle of it, carries what the sector's special type gives it, and
/// nothing else.
pub open spec fn sector_row(
    world: World,
    map: LevelMap,
    templates: AssetStorage<EntityTemplate>,
    table: Map<u16, AssetHandle>,
    first: int,
    i: int,
) -> bool {
    let e = sector_entity(map, first, i);
    &&& world.spec_is_alive(e)
    &&& world.sector_refs[e.id as int] == Some(
        SectorRef { map_entity: Entity { id: first as usize }, index: i as usize },
    )
    &&& world.linedef_refs[e.id as int] is None
    &&& world.door_actives[e.id as int] is None
    &&& world.switch_actives[e.id as int] is None
    &&& world.map_dynamics[e.id as int] is None
    &&& forall|k: ComponentKind| #[trigger]
        world.component(e, k) == match special_component(
            table,
            templates,
            map.sectors[i].special_type,
            k,
        ) {
            Some(c) => Some(c),
            None => if k == ComponentKind::Transform {
                Some(Component::Transform(sector_place(map, i)))
            } else {
                None
            },
        }
}

/// The entity of linedef `i` is alive and names its linedef, but carries
/// nothing else: its special type was not found.
pub open spec fn linedef_stub(world: World, first: int, i: int) -> bool {
    let e = linedef_entity(first, i);
    &&& world.spec_is_alive(e)
    &&& world.linedef_refs[e.id as int] == Some(
        LinedefRef { map_entity: Entity { id: first as usize }, index: i as usize },
    )
    &&& world.sector_refs[e.id as int] is None
    &&& world.door_actives[e.id as int] is None
    &&& world.switch_actives[e.id as int] is None
    &&& world.map_dynamics[e.id as int] is None
    &&& forall|k: ComponentKind| #[trigger] world.component(e, k) is None
}

/// The entity of sector `i` is alive, names its sector and stands in the
/// middle of it, but carries nothing else: its special type was not found.
pub open spec fn sector_stub(world: World, map: LevelMap, first: int, i: int) -> bool {
    let e = sector_entity(map, first, i);
    &&& world.spec_is_alive(e)
    &&& world.sector_refs[e.id as int] == Some(
        SectorRef { map_entity: Entity { id: first as usize }, index: i as usize },
    )
    &&& world.linedef_refs[e.id as int] is None
    &&& world.door_actives[e.id as int] is None
    &&& world.switch_actives[e.id as int] is None
    &&& world.map_dynamics[e.id as int] is None
    &&& forall|k: ComponentKind| #[trigger]
        world.component(e, k) == if k == ComponentKind::Transform {
            Some(Component::Transform(sector_place(map, i)))
        } else {
            None
        }
}

/// The live state of a level that nothing has happened to yet.
pub open spec fn is_fresh_overlay(live: MapDynamic, map: LevelMap, handle: AssetHandle, first: int)
    -> bool {
    &&& live.map == handle
    &&& live.anim_states_flat@ == started_anims(map.anims_flat@)
    &&& live.anim_states_wall@ == started_anims(map.anims_wall@)
    &&& live.linedefs.len() == map.linedefs.len()
    &&& forall|i: int|
        0 <= i < live.linedefs.len() ==> is_fresh_linedef(
            #[trigger] live.linedefs[i],
            map.linedefs[i],
            linedef_entity(first, i),
        )
    &&& live.sectors.len() == map.sectors.len()
    &&& forall|i: int|
        0 <= i < live.sectors.len() ==> #[trigger] live.sectors[i] == (SectorDynamic {
            entity: sector_entity(map, first, i),
            light_level: map.sectors[i].light_level,
            interval: map.sectors[i].interval,
        })
}

/// What `spawn_map_entities` returns: the first linedef of unknown special
/// type as an error, else the first such sector, else the level's entity.
pub open spec fn map_spawn_result(
    map: LevelMap,
    linedef_table: Map<u16, AssetHandle>,
    sector_table: Map<u16, AssetHandle>,
    first: int,
) -> Result<Entity, SpawnError> {
    match first_unknown(linedef_specials(map), linedef_table, 0) {
        Some(i) => Err(SpawnError::LinedefTypeNotFound(map.linedefs[i].special_type)),
        None => match first_unknown(sector_specials(map), sector_table, 0) {
            Some(i) => Err(SpawnError::SectorTypeNotFound(map.sectors[i].special_type)),
            None => Ok(Entity { id: first as usize }),
        },
    }
}

/// Brings a level into the world: one entity for the level, which carries
/// its live state, then one for each linedef and one for each sector, each
/// with what its special type gives it. Stops at the first special type that
/// its table lacks; the entities made up to then stay, and the level's live
/// state is not entered.
pub fn spawn_map_entities(
    world: &mut World,
    map: &LevelMap,
    map_handle: AssetHandle,
    templates: &AssetStorage<EntityTemplate>,
    linedef_types: &LinedefTypes,
    sector_types: &SectorTypes,
) -> (r: Result<Entity, SpawnError>)
    requires
        old(world).wf(),
        map.wf(),
        resolves(linedef_types.doomednums@, *templates),
        resolves(sector_types.doomednums@, *templates),
        old(world).count() + 1 + map.linedefs.len() + map.sectors.len() <= usize::MAX,
    ensures
        final(world).extends(*old(world)),
        old(world).moving_wf() ==> final(world).moving_wf(),
        r == map_spawn_result(
            *map,
            linedef_types.doomednums@,
            sector_types.doomednums@,
            old(world).count() as int,
        ),
        r matches Ok(e) ==> {
            let first = old(world).count() as int;
            &&& final(world).count() == first + 1 + map.linedefs.len() + map.sectors.len()
            &&& final(world).spec_is_alive(e)
            &&& forall|k: ComponentKind| #[trigger] final(world).component(e, k) is None
            &&& final(world).linedef_refs[first] is None
            &&& final(world).sector_refs[first] is None
            &&& final(world).door_actives[first] is None
            &&& final(world).switch_actives[first] is None
            &&& final(world).map_dynamics[first] matches Some(live)
            &&& is_fresh_overlay(live, *map, map_handle, first)
            &&& live.wf(*map)
            &&& forall|i: int|
                0 <= i < map.linedefs.len() ==> #[trigger] linedef_row(
                    *final(world),
                    *map,
                    *templates,
                    linedef_types.doomednums@,
                    first,
                    i,
                )
            &&& forall|i: int|
                0 <= i < map.sectors.len() ==> #[trigger] sector_row(
                    *final(world),
                    *map,
                    *templates,
                    sector_types.doomednums@,
                    first,
                    i,
                )
        },
        r is Err ==> {
            let first = old(world).count() as int;
            &&& final(world).carries_nothing(Entity { id: first as usize })
            &&& match first_unknown(linedef_specials(*map), linedef_types.doomednums@, 0) {
                Some(bad) => {
                    &&& final(world).count() == first + 2 + bad
                    &&& linedef_stub(*final(world), first, bad)
                    &&& forall|i: int|
                        0 <= i < bad ==> #[trigger] linedef_row(
                            *final(world),
                            *map,
                            *templates,
                            linedef_types.doomednums@,
                            first,
                            i,
                        )
                },
                None => first_unknown(sector_specials(*map), sector_types.doomednums@, 0) matches Some(
                    bad,
                ) && {
                    &&& final(world).count() == first + 2 + map.linedefs.len() + bad
                    &&& sector_stub(*final(world), *map, first, bad)
                    &&& forall|i: int|
                        0 <= i < map.linedefs.len() ==> #[trigger] linedef_row(
                            *final(world),
                            *map,
                            *templates,
                            linedef_types.doomednums@,
                            first,
                            i,
                        )
                    &&& forall|i: int|
                        0 <= i < bad ==> #[trigger] sector_row(
                            *final(world),
                            *map,
                            *templates,
                            sector_types.doomednums@,
                            first,
                            i,
                        )
                },
            }
        },
{
    let ghost first = world.count() as int;
    let ghost ltable = linedef_types.doomednums@;
    let ghost stable = sector_types.doomednums@;
    let map_entity = world.create_entity();
    let mut live = MapDynamic {
        anim_states_flat: start_anims(&map.anims_flat),
        anim_states_wall: start_anims(&map.anims_wall),
        map: map_handle,
        linedefs: Vec::new(),
        sectors: Vec::new(),
    };
    let mut i: usize = 0;
    while i < map.linedefs.len()
        invariant
            i <= map.linedefs.len(),
            first == old(world).count(),
            first + 1 + map.linedefs.len() + map.sectors.len() <= usize::MAX,
            map_entity.id == first,
            ltable == linedef_types.doomednums@,
            map.wf(),
            resolves(ltable, *templates),
            world.wf(),
            world.count() == first + 1 + i,
            world.extends(*old(world)),
            old(world).moving_wf() ==> world.moving_wf(),
            world.carries_nothing(map_entity),
            world.spec_is_alive(map_entity),
            live.map == map_handle,
            live.anim_states_flat@ == started_anims(map.anims_flat@),
            live.anim_states_wall@ == started_anims(map.anims_wall@),
            live.sectors.len() == 0,
            live.linedefs.len() == i,
            forall|j: int|
                0 <= j < i ==> is_fresh_linedef(
                    #[trigger] live.linedefs[j],
                    map.linedefs[j],
                    linedef_entity(first, j),
                ),
            forall|j: int|
                0 <= j < i ==> #[trigger] linedef_row(*world, *map, *templates, ltable, first, j),
            first_unknown(linedef_specials(*map), ltable, 0) == first_unknown(
                linedef_specials(*map),
                ltable,
                i as int,
            ),
        decreases map.linedefs.len() - i,
    {
        let linedef = &map.linedefs[i];
        let ghost w0 = *world;
        let e = world.create_entity();
        let ghost w1 = *world;
        live.linedefs.push(fresh_linedef(linedef, e));
        world.linedef_refs[e.id] = Some(LinedefRef { map_entity, index: i });
        let ghost w2 = *world;
        match apply_special(world, templates, &linedef_types.doomednums, linedef.special_type, e) {
            Ok(()) => {},
            Err(n) => {
                proof {
                    lemma_extends_step(*old(world), w0, *world);
                    assert forall|j: int| 0 <= j < i implies #[trigger] linedef_row(
                        *world,
                        *map,
                        *templates,
                        ltable,
                        first,
                        j,
                    ) by {
                        let o = linedef_entity(first, j);
                        assert(linedef_row(w0, *map, *templates, ltable, first, j));
                        assert forall|k: ComponentKind| #[trigger]
                            world.component(o, k) == w0.component(o, k) by {}
                    }
                    assert forall|k: ComponentKind| #[trigger]
                        world.component(map_entity, k) == w0.component(map_entity, k) by {}
                    assert forall|k: ComponentKind| #[trigger]
                        world.component(e, k) is None by {}
                }
                return Err(SpawnError::LinedefTypeNotFound(n));
            },
        }
        proof {
            assert forall|o: Entity, k: ComponentKind| o.id < w0.count() implies #[trigger]
                world.component(o, k) == w0.component(o, k) by {
                assert(w2.component(o, k) == w0.component(o, k));
            }
            lemma_extends_step(*old(world), w0, *world);
            assert forall|j: int| 0 <= j < i + 1 implies #[trigger] linedef_row(
                *world,
                *map,
                *templates,
                ltable,
                first,
                j,
            ) by {
                let o = linedef_entity(first, j);
                if j < i {
                    assert(linedef_row(w0, *map, *templates, ltable, first, j));
                    assert forall|k: ComponentKind| #[trigger]
                        world.component(o, k) == w0.component(o, k) by {
                        assert(w2.component(o, k) == w0.component(o, k));
                    }
                } else {
                    assert forall|k: ComponentKind| #[trigger]
                        world.component(o, k) == special_component(
                            ltable,
                            *templates,
                            map.linedefs[j].special_type,
                            k,
                        ) by {
                        assert(w2.component(o, k) is None);
                    }
                }
            }
        }
        i += 1;
    }
    let mut j: usize = 0;
    while j < map.sectors.len()
        invariant
            j <= map.sectors.len(),
            first == old(world).count(),
            first + 1 + map.linedefs.len() + map.sectors.len() <= usize::MAX,
            map_entity.id == first,
            ltable == linedef_types.doomednums@,
            stable == sector_types.doomednums@,
            map.wf(),
            resolves(stable, *templates),
            world.wf(),
            world.count() == first + 1 + map.linedefs.len() + j,
            world.extends(*old(world)),
            old(world).moving_wf() ==> world.moving_wf(),
            world.carries_nothing(map_entity),
            world.spec_is_alive(map_entity),
            live.map == map_handle,
            live.anim_states_flat@ == started_anims(map.anims_flat@),
            live.anim_states_wall@ == started_anims(map.anims_wall@),
            live.linedefs.len() == map.linedefs.len(),
            live.sectors.len() == j,
            forall|l: int|
                0 <= l < map.linedefs.len() ==> is_fresh_linedef(
                    #[trigger] live.linedefs[l],
                    map.linedefs[l],
                    linedef_entity(first, l),
                ),
            forall|s: int|
                0 <= s < j ==> #[trigger] live.sectors[s] == (SectorDynamic {
                    entity: sector_entity(*map, first, s),
                    light_level: map.sectors[s].light_level,
                    interval: map.sectors[s].interval,
                }),
            forall|l: int|
                0 <= l < map.linedefs.len() ==> #[trigger] linedef_row(
                    *world,
                    *map,
                    *templates,
                    ltable,
                    first,
                    l,
                ),
            forall|s: int|
                0 <= s < j ==> #[trigger] sector_row(*world, *map, *templates, stable, first, s),
            first_unknown(linedef_specials(*map), ltable, 0) is None,
            first_unknown(sector_specials(*map), stable, 0) == first_unknown(
                sector_specials(*map),
                stable,
                j as int,
            ),
        decreases map.sectors.len() - j,
    {
        let sector = &map.sectors[j];
        let ghost w0 = *world;
        let e = world.create_entity();
        live.sectors.push(
            SectorDynamic { entity: e, light_level: sector.light_level, interval: sector.interval },
        );
        world.sector_refs[e.id] = Some(SectorRef { map_entity, index: j });
        world.transforms[e.id] = Some(sector_transform(map, j));
        let ghost w2 = *world;
        match apply_special(world, templates, &sector_types.doomednums, sector.special_type, e) {
            Ok(()) => {},
            Err(n) => {
                proof {
                    lemma_extends_step(*old(world), w0, *world);
                    assert forall|l: int| 0 <= l < map.linedefs.len() implies #[trigger] linedef_row(
                        *world,
                        *map,
                        *templates,
                        ltable,
                        first,
                        l,
                    ) by {
                        let o = linedef_entity(first, l);
                        assert(linedef_row(w0, *map, *templates, ltable, first, l));
                        assert forall|k: ComponentKind| #[trigger]
                            world.component(o, k) == w0.component(o, k) by {}
                    }
                    assert forall|s: int| 0 <= s < j implies #[trigger] sector_row(
                        *world,
                        *map,
                        *templates,
                        stable,
                        first,
                        s,
                    ) by {
                        let o = sector_entity(*map, first, s);
                        assert(sector_row(w0, *map, *templates, stable, first, s));
                        assert forall|k: ComponentKind| #[trigger]
                            world.component(o, k) == w0.component(o, k) by {}
                    }
                    assert forall|k: ComponentKind| #[trigger]
                        world.component(map_entity, k) == w0.component(map_entity, k) by {}
                    assert forall|k: ComponentKind| #[trigger]
                        world.component(e, k) == if k == ComponentKind::Transform {
                            Some(Component::Transform(sector_place(*map, j as int)))
                        } else {
                            None
                        } by {}
                }
                return Err(SpawnError::SectorTypeNotFound(n));
            },
        }
        proof {
            assert forall|o: Entity, k: ComponentKind| o.id < w0.count() implies #[trigger]
                world.component(o, k) == w0.component(o, k) by {
                assert(w2.component(o, k) == w0.component(o, k));
            }
            lemma_extends_step(*old(world), w0, *world);
            assert forall|l: int| 0 <= l < map.linedefs.len() implies #[trigger] linedef_row(
                *world,
                *map,
                *templates,
                ltable,
                first,
                l,
            ) by {
                let o = linedef_entity(first, l);
                assert(linedef_row(w0, *map, *templates, ltable, first, l));
                assert forall|k: ComponentKind| #[trigger]
                    world.component(o, k) == w0.component(o, k) by {
                    assert(w2.component(o, k) == w0.component(o, k));
                }
            }
            assert forall|s: int| 0 <= s < j + 1 implies #[trigger] sector_row(
                *world,
                *map,
                *templates,
                stable,
                first,
                s,
            ) by {
                let o = sector_entity(*map, first, s);
                if s < j {
                    assert(sector_row(w0, *map, *templates, stable, first, s));
                    assert forall|k: ComponentKind| #[trigger]
                        world.component(o, k) == w0.component(o, k) by {
                        assert(w2.component(o, k) == w0.component(o, k));
                    }
                } else {
                    assert forall|k: ComponentKind| #[trigger]
                        world.component(o, k) == match special_component(
                            stable,
                            *templates,
                            map.sectors[s].special_type,
                            k,
                        ) {
                            Some(c) => Some(c),
                            None => if k == ComponentKind::Transform {
                                Some(Component::Transform(sector_place(*map, s)))
                            } else {
                                None
                            },
                        } by {
                        assert(w2.component(o, k) == if k == ComponentKind::Transform {
                            Some(Component::Transform(sector_place(*map, s)))
                        } else {
                            None
                        });
                    }
                }
            }
        }
        j += 1;
    }
    proof {
        assert forall|s: int| 0 <= s < live.sectors.len() implies (
        #[trigger] live.sectors[s]).interval.wf() by {
            assert(map.sector_ok(map.sectors[s]));
        }
        assert forall|l: int| 0 <= l < live.linedefs.len() implies ((
        #[trigger] live.linedefs[l]).sidedefs[0] is Some <==> map.linedefs[l].sidedefs[0]
            is Some) by {
            assert(is_fresh_linedef(live.linedefs[l], map.linedefs[l], linedef_entity(first, l)));
        }
    }
    let ghost w3 = *world;
    world.map_dynamics[map_entity.id] = Some(live);
    proof {
        assert forall|o: Entity, k: ComponentKind| #[trigger]
            world.component(o, k) == w3.component(o, k) by {}
        lemma_extends_step(*old(world), w3, *world);
        assert forall|l: int| 0 <= l < map.linedefs.len() implies #[trigger] linedef_row(
            *world,
            *map,
            *templates,
            ltable,
            first,
            l,
        ) by {
            assert(linedef_row(w3, *map, *templates, ltable, first, l));
            assert forall|k: ComponentKind| #[trigger]
                world.component(linedef_entity(first, l), k) == w3.component(
                    linedef_entity(first, l),
                    k,
                ) by {}
        }
        assert forall|s: int| 0 <= s < map.sectors.len() implies #[trigger] sector_row(
            *world,
            *map,
            *templates,
            stable,
            first,
            s,
        ) by {
            assert(sector_row(w3, *map, *templates, stable, first, s));
            assert forall|k: ComponentKind| #[trigger]
                world.component(sector_entity(*map, first, s), k) == w3.component(
                    sector_entity(*map, first, s),
                    k,
                ) by {}
        }
    }
    Ok(map_entity)
}

/// A world that keeps the first rows of one that extends `base` extends
/// `base` as well.
pub proof fn lemma_extends_step(base: World, before: World, after: World)
    requires
        before.extends(base),
        after.wf(),
        after.count() >= before.count(),
        forall|o: Entity, k: ComponentKind|
            o.id < base.count() ==> #[trigger] after.component(o, k) == before.component(o, k),
        forall|i: int|
            0 <= i < base.count() ==> {
                &&& #[trigger] after.alive[i] == before.alive[i]
                &&& after.door_actives[i] == before.door_actives[i]
                &&& after.switch_actives[i] == before.switch_actives[i]
                &&& after.linedef_refs[i] == before.linedef_refs[i]
                &&& after.sector_refs[i] == before.sector_refs[i]
                &&& after.map_dynamics[i] == before.map_dynamics[i]
            },
    ensures
        after.extends(base),
{
    assert forall|o: Entity, k: ComponentKind| o.id < base.count() implies #[trigger]
        after.component(o, k) == base.component(o, k) by {
        assert(before.component(o, k) == base.component(o, k));
    }
    assert forall|i: int| 0 <= i < base.count() implies {
        &&& #[trigger] after.alive[i] == base.alive[i]
        &&& after.door_actives[i] == base.door_actives[i]
        &&& after.switch_actives[i] == base.switch_actives[i]
        &&& after.linedef_refs[i] == base.linedef_refs[i]
        &&& after.sector_refs[i] == base.sector_refs[i]
        &&& after.map_dynamics[i] == base.map_dynamics[i]
    } by {
        assert(before.alive[i] == base.alive[i]);
    }
}

} // verus!
