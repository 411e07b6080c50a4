use vstd::prelude::*;
use crate::components::{
    Component, ComponentKind, SpawnOnCeiling, SpawnPoint, SpriteRender, Transform, UseAction,
    Velocity,
};
use crate::door::{DoorActive, SwitchActive};
use crate::map::{LinedefRef, MapDynamic, SectorRef};
use crate::physics::BoxCollider;

verus! {

/// The identity of one entity: its position in creation order.
#[derive(Clone, Copy, Debug, PartialEq, Eq, Structural)]
pub struct Entity {
    pub id: usize,
}

#[derive(Clone, Copy, Debug, PartialEq, Eq, Structural)]
pub enum WorldError {
    /// The entity was never created or has been deleted.
    NoSuchEntity,
}

/// The store of all entities and their components: one table per kind of
/// component, each indexed by entity, so that every walk over entities goes
/// in creation order.
pub struct World {
    pub alive: Vec<bool>,
    pub transforms: Vec<Option<Transform>>,
    pub velocities: Vec<Option<Velocity>>,
    pub box_colliders: Vec<Option<BoxCollider>>,
    pub spawn_on_ceilings: Vec<Option<SpawnOnCeiling>>,
    pub spawn_points: Vec<Option<SpawnPoint>>,
    pub sprite_renders: Vec<Option<SpriteRender>>,
    pub use_actions: Vec<Option<UseAction>>,
    pub door_actives: Vec<Option<DoorActive>>,
    pub switch_actives: Vec<Option<SwitchActive>>,
    pub linedef_refs: Vec<Option<LinedefRef>>,
    pub sector_refs: Vec<Option<SectorRef>>,
    pub map_dynamics: Vec<Option<MapDynamic>>,
}

pub open spec fn colliders_wf(s: Seq<Option<BoxCollider>>) -> bool {
    forall|i: int| 0 <= i < s.len() ==> ((#[trigger] s[i]) matches Some(c) ==> c.wf())
}

pub open spec fn velocities_wf(s: Seq<Option<Velocity>>) -> bool {
    forall|i: int| 0 <= i < s.len() ==> ((#[trigger] s[i]) matches Some(v) ==> v.velocity.wf())
}

/// The first row at or after `from` that holds a value.
pub open spec fn first_some<T>(s: Seq<Option<T>>, from: int) -> Option<int>
    decreases s.len() - from,
{
    if from < 0 || from >= s.len() {
        None
    } else if s[from] is Some {
        Some(from)
    } else {
        first_some(s, from + 1)
    }
}

impl World {
    /// The entity that carries the live state of the level: the first one,
    /// in creation order, with a `MapDynamic`.
    pub open spec fn spec_map_entity(self) -> Option<int> {
        first_some(self.map_dynamics@, 0)
    }

    /// The entity that carries the live state of the level, if a level has
    /// been spawned.
    pub fn map_entity(&self) -> (r: Option<Entity>)
        ensures
            match r {
                Some(e) => self.spec_map_entity() == Some(e.id as int) && e.id
                    < self.map_dynamics.len() && self.map_dynamics[e.id as int] is Some,
                None => self.spec_map_entity() is None,
            },
    {
        let mut i: usize = 0;
        while i < self.map_dynamics.len()
            invariant
                i <= self.map_dynamics.len(),
                first_some(self.map_dynamics@, 0) == first_some(self.map_dynamics@, i as int),
            decreases self.map_dynamics.len() - i,
        {
            if self.map_dynamics[i].is_some() {
                return Some(Entity { id: i });
            }
            i += 1;
        }
        None
    }

    /// Every collider has sane dimensions and every velocity is in range.
    pub open spec fn moving_wf(self) -> bool {
        colliders_wf(self.box_colliders@) && velocities_wf(self.velocities@)
    }

    /// How many entities were ever created.
    pub open spec fn count(self) -> nat {
        self.alive@.len()
    }

    /// Every table has one row per entity ever created.
    pub open spec fn wf(self) -> bool {
        &&& self.transforms.len() == self.count()
        &&& self.velocities.len() == self.count()
        &&& self.box_colliders.len() == self.count()
        &&& self.spawn_on_ceilings.len() == self.count()
        &&& self.spawn_points.len() == self.count()
        &&& self.sprite_renders.len() == self.count()
        &&& self.use_actions.len() == self.count()
        &&& self.door_actives.len() == self.count()
        &&& self.switch_actives.len() == self.count()
        &&& self.linedef_refs.len() == self.count()
        &&& self.sector_refs.len() == self.count()
        &&& self.map_dynamics.len() == self.count()
    }

    pub open spec fn spec_is_alive(self, e: Entity) -> bool {
        e.id < self.count() && self.alive[e.id as int]
    }

    /// The component of kind `kind` that `e` carries, if any.
    pub open spec fn component(self, e: Entity, kind: ComponentKind) -> Option<Component> {
        if e.id < self.count() && self.wf() {
            let i = e.id as int;
            match kind {
                ComponentKind::Transform => match self.transforms[i] {
                    Some(c) => Some(Component::Transform(c)),
                    None => None,
                },
                ComponentKind::Velocity => match self.velocities[i] {
                    Some(c) => Some(Component::Velocity(c)),
                    None => None,
                },
                ComponentKind::BoxCollider => match self.box_colliders[i] {
                    Some(c) => Some(Component::BoxCollider(c)),
                    None => None,
                },
                ComponentKind::SpawnOnCeiling => match self.spawn_on_ceilings[i] {
                    Some(c) => Some(Component::SpawnOnCeiling(c)),
                    None => None,
                },
                ComponentKind::SpawnPoint => match self.spawn_points[i] {
                    Some(c) => Some(Component::SpawnPoint(c)),
                    None => None,
                },
                ComponentKind::SpriteRender => match self.sprite_renders[i] {
                    Some(c) => Some(Component::SpriteRender(c)),
                    None => None,
                },
                ComponentKind::UseAction => match self.use_actions[i] {
                    Some(c) => Some(Component::UseAction(c)),
                    None => None,
                },
            }
        } else {
            None
        }
    }

    /// The entity carries no component of any kind.
    pub open spec fn is_bare(self, e: Entity) -> bool {
        &&& e.id < self.count()
        &&& self.transforms[e.id as int] is None
        &&& self.velocities[e.id as int] is None
        &&& self.box_colliders[e.id as int] is None
        &&& self.spawn_on_ceilings[e.id as int] is None
        &&& self.spawn_points[e.id as int] is None
        &&& self.sprite_renders[e.id as int] is None
        &&& self.use_actions[e.id as int] is None
        &&& self.door_actives[e.id as int] is None
        &&& self.switch_actives[e.id as int] is None
        &&& self.linedef_refs[e.id as int] is None
        &&& self.sector_refs[e.id as int] is None
        &&& self.map_dynamics[e.id as int] is None
    }

    /// This world holds every entity of `before` with what it carried
    /// there; entities may have been added.
    pub open spec fn extends(self, before: World) -> bool {
        &&& self.wf()
        &&& self.count() >= before.count()
        &&& forall|o: Entity, k: ComponentKind|
            o.id < before.count() ==> #[trigger] self.component(o, k) == before.component(o, k)
        &&& forall|i: int|
            0 <= i < before.count() ==> {
                &&& #[trigger] self.alive[i] == before.alive[i]
                &&& self.door_actives[i] == before.door_actives[i]
                &&& self.switch_actives[i] == before.switch_actives[i]
                &&& self.linedef_refs[i] == before.linedef_refs[i]
                &&& self.sector_refs[i] == before.sector_refs[i]
                &&& self.map_dynamics[i] == before.map_dynamics[i]
            }
    }

    /// The entity takes no part in any mechanism and carries no component
    /// that a template can give.
    pub open spec fn carries_nothing(self, e: Entity) -> bool {
        &&& e.id < self.count()
        &&& forall|k: ComponentKind| #[trigger] self.component(e, k) is None
        &&& self.door_actives[e.id as int] is None
        &&& self.switch_actives[e.id as int] is None
        &&& self.linedef_refs[e.id as int] is None
        &&& self.sector_refs[e.id as int] is None
        &&& self.map_dynamics[e.id as int] is None
    }

    /// The tables other than those a template can fill are the same in both
    /// worlds.
    pub open spec fn same_mechanisms(self, other: World) -> bool {
        &&& self.alive@ == other.alive@
        &&& self.door_actives@ == other.door_actives@
        &&& self.switch_actives@ == other.switch_actives@
        &&& self.linedef_refs@ == other.linedef_refs@
        &&& self.sector_refs@ == other.sector_refs@
        &&& self.map_dynamics@ == other.map_dynamics@
    }

    /// Whether every table has one row per entity.
    pub fn is_valid(&self) -> (b: bool)
        ensures
            b == self.wf(),
    {
        let n = self.alive.len();
        self.transforms.len() == n && self.velocities.len() == n && self.box_colliders.len() == n
            && self.spawn_on_ceilings.len() == n && self.spawn_points.len() == n
            && self.sprite_renders.len() == n && self.use_actions.len() == n
            && self.door_actives.len() == n && self.switch_actives.len() == n
            && self.linedef_refs.len() == n && self.sector_refs.len() == n
            && self.map_dynamics.len() == n
    }

    /// Whether every collider has sane dimensions and every velocity is in
    /// range.
    pub fn is_moving_valid(&self) -> (b: bool)
        ensures
            b == self.moving_wf(),
    {
        let mut i: usize = 0;
        while i < self.box_colliders.len()
            invariant
                i <= self.box_colliders.len(),
                forall|k: int|
                    0 <= k < i ==> ((#[trigger] self.box_colliders@[k]) matches Some(c) ==> c.wf()),
            decreases self.box_colliders.len() - i,
        {
            if let Some(c) = &self.box_colliders[i] {
                if !c.is_valid() {
                    return false;
                }
            }
            i += 1;
        }
        let mut j: usize = 0;
        while j < self.velocities.len()
            invariant
                j <= self.velocities.len(),
                colliders_wf(self.box_colliders@),
                forall|k: int|
                    0 <= k < j ==> ((#[trigger] self.velocities@[k]) matches Some(v)
                        ==> v.velocity.wf()),
            decreases self.velocities.len() - j,
        {
            if let Some(v) = &self.velocities[j] {
                if !v.velocity.is_valid() {
                    return false;
                }
            }
            j += 1;
        }
        true
    }

    /// A world without entities.
    pub fn new() -> (w: World)
        ensures
            w.wf(),
            w.count() == 0,
    {
        World {
            alive: Vec::new(),
            transforms: Vec::new(),
            velocities: Vec::new(),
            box_colliders: Vec::new(),
            spawn_on_ceilings: Vec::new(),
            spawn_points: Vec::new(),
            sprite_renders: Vec::new(),
            use_actions: Vec::new(),
            door_actives: Vec::new(),
            switch_actives: Vec::new(),
            linedef_refs: Vec::new(),
            sector_refs: Vec::new(),
            map_dynamics: Vec::new(),
        }
    }

    /// How many entities were ever created.
    pub fn len(&self) -> (n: usize)
        ensures
            n == self.count(),
    {
        self.alive.len()
    }

    pub fn is_alive(&self, e: Entity) -> (b: bool)
        ensures
            b == self.spec_is_alive(e),
    {
        e.id < self.alive.len() && self.alive[e.id]
    }

    /// Creates an entity without components. It comes after every entity
    /// created before it.
    pub fn create_entity(&mut self) -> (e: Entity)
        requires
            old(self).wf(),
        ensures
            final(self).wf(),
            e.id == old(self).count(),
            final(self).count() == old(self).count() + 1,
            final(self).spec_is_alive(e),
            final(self).is_bare(e),
            final(self).alive@ == old(self).alive@.push(true),
            final(self).transforms@ == old(self).transforms@.push(None),
            final(self).velocities@ == old(self).velocities@.push(None),
            final(self).box_colliders@ == old(self).box_colliders@.push(None),
            final(self).spawn_on_ceilings@ == old(self).spawn_on_ceilings@.push(None),
            final(self).spawn_points@ == old(self).spawn_points@.push(None),
            final(self).sprite_renders@ == old(self).sprite_renders@.push(None),
            final(self).use_actions@ == old(self).use_actions@.push(None),
            final(self).door_actives@ == old(self).door_actives@.push(None),
            final(self).switch_actives@ == old(self).switch_actives@.push(None),
            final(self).linedef_refs@ == old(self).linedef_refs@.push(None),
            final(self).sector_refs@ == old(self).sector_refs@.push(None),
            final(self).map_dynamics@ == old(self).map_dynamics@.push(None),
            old(self).moving_wf() ==> final(self).moving_wf(),
    {
        let id = self.alive.len();
        self.alive.push(true);
        self.transforms.push(None);
        self.velocities.push(None);
        self.box_colliders.push(None);
        self.spawn_on_ceilings.push(None);
        self.spawn_points.push(None);
        self.sprite_renders.push(None);
        self.use_actions.push(None);
        self.door_actives.push(None);
        self.switch_actives.push(None);
        self.linedef_refs.push(None);
        self.sector_refs.push(None);
        self.map_dynamics.push(None);
        Entity { id }
    }

    /// Takes the entity out of play and drops all its components.
    pub fn delete_entity(&mut self, e: Entity) -> (r: Result<(), WorldError>)
        requires
            old(self).wf(),
        ensures
            final(self).wf(),
            final(self).count() == old(self).count(),
            r is Ok <==> old(self).spec_is_alive(e),
            r is Err ==> *final(self) == *old(self),
            r is Ok ==> {
                &&& final(self).is_bare(e)
                &&& final(self).alive@ == old(self).alive@.update(e.id as int, false)
                &&& final(self).transforms@ == old(self).transforms@.update(e.id as int, None)
                &&& final(self).velocities@ == old(self).velocities@.update(e.id as int, None)
                &&& final(self).box_colliders@ == old(self).box_colliders@.update(
                    e.id as int,
                    None,
                )
                &&& final(self).spawn_on_ceilings@ == old(self).spawn_on_ceilings@.update(
                    e.id as int,
                    None,
                )
                &&& final(self).spawn_points@ == old(self).spawn_points@.update(e.id as int, None)
                &&& final(self).sprite_renders@ == old(self).sprite_renders@.update(
                    e.id as int,
                    None,
                )
                &&& final(self).use_actions@ == old(self).use_actions@.update(e.id as int, None)
                &&& final(self).door_actives@ == old(self).door_actives@.update(e.id as int, None)
                &&& final(self).switch_actives@ == old(self).switch_actives@.update(
                    e.id as int,
                    None,
                )
                &&& final(self).linedef_refs@ == old(self).linedef_refs@.update(e.id as int, None)
                &&& final(self).sector_refs@ == old(self).sector_refs@.update(e.id as int, None)
                &&& final(self).map_dynamics@ == old(self).map_dynamics@.update(e.id as int, None)
            },
    {
        if !self.is_alive(e) {
            return Err(WorldError::NoSuchEntity);
        }
        let i = e.id;
        self.alive[i] = false;
        self.transforms[i] = None;
        self.velocities[i] = None;
        self.box_colliders[i] = None;
        self.spawn_on_ceilings[i] = None;
        self.spawn_points[i] = None;
        self.sprite_renders[i] = None;
        self.use_actions[i] = None;
        self.door_actives[i] = None;
        self.switch_actives[i] = None;
        self.linedef_refs[i] = None;
        self.sector_refs[i] = None;
        self.map_dynamics[i] = None;
        Ok(())
    }

    /// What `insert` leaves behind when it succeeds: `e` carries `c` in
    /// place of whatever it carried of that kind, and nothing else differs.
    pub open spec fn inserted(self, before: World, e: Entity, c: Component) -> bool {
        &&& self.wf()
        &&& self.count() == before.count()
        &&& self.same_mechanisms(before)
        &&& forall|o: Entity, k: ComponentKind| #[trigger]
            self.component(o, k) == if o == e && k == c.spec_kind() {
                Some(c)
            } else {
                before.component(o, k)
            }
    }

    /// Gives `e` the component `c`, in place of any it has of that kind.
    /// Fails, changing nothing, when `e` is not alive.
    pub fn insert(&mut self, e: Entity, c: Component) -> (r: Result<(), WorldError>)
        requires
            old(self).wf(),
        ensures
            r is Ok <==> old(self).spec_is_alive(e),
            r is Err ==> *final(self) == *old(self),
            r is Ok ==> final(self).inserted(*old(self), e, c),
            old(self).moving_wf() && c.wf() ==> final(self).moving_wf(),
    {
        if !self.is_alive(e) {
            return Err(WorldError::NoSuchEntity);
        }
        let i = e.id;
        match c {
            Component::Transform(v) => {
                self.transforms[i] = Some(v);
            },
            Component::Velocity(v) => {
                self.velocities[i] = Some(v);
            },
            Component::BoxCollider(v) => {
                self.box_colliders[i] = Some(v);
            },
            Component::SpawnOnCeiling(v) => {
                self.spawn_on_ceilings[i] = Some(v);
            },
            Component::SpawnPoint(v) => {
                self.spawn_points[i] = Some(v);
            },
            Component::SpriteRender(v) => {
                self.sprite_renders[i] = Some(v);
            },
            Component::UseAction(v) => {
                self.use_actions[i] = Some(v);
            },
        }
        Ok(())
    }
}

} // verus!
