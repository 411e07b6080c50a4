use vstd::prelude::*;
use crate::assets::AssetHandle;
use crate::door::{DoorSwitchUse, DoorUse};
use crate::geometry::Vec3;
use crate::physics::BoxCollider;
use crate::world::Entity;

verus! {

/// Where an entity is and how it is turned.
#[derive(Clone, Copy, Debug, PartialEq, Eq, Structural)]
pub struct Transform {
    pub position: Vec3,
    /// Roll, pitch and yaw, each in 1/65536ths of a full turn.
    pub rotation: Vec3,
}

/// How far an entity moves per second.
#[derive(Clone, Copy, Debug, PartialEq, Eq, Structural)]
pub struct Velocity {
    pub velocity: Vec3,
}

impl Default for Velocity {
    fn default() -> (v: Velocity)
        ensures
            v.velocity.is_zero(),
    {
        Velocity { velocity: Vec3 { x: 0, y: 0, z: 0 } }
    }
}

/// Marks an entity that starts hanging from the ceiling, `offset` below it.
/// Consumed when the entity is placed.
#[derive(Clone, Copy, Debug, PartialEq, Eq, Structural)]
pub struct SpawnOnCeiling {
    pub offset: i64,
}

/// Marks the place where a player enters the level.
#[derive(Clone, Copy, Debug, PartialEq, Eq, Structural)]
pub struct SpawnPoint {
    pub player_num: usize,
}

/// Which sprite frame stands for an entity on screen.
#[derive(Clone, Copy, Debug, PartialEq, Eq, Structural)]
pub struct SpriteRender {
    pub sprite: AssetHandle,
    pub frame: usize,
    pub full_bright: bool,
}

/// What happens when a player uses a linedef.
#[derive(Clone, Copy, Debug, PartialEq, Eq, Structural)]
pub enum UseAction {
    DoorUse(DoorUse),
    DoorSwitchUse(DoorSwitchUse),
}

/// A player has used the linedef that `linedef_entity` stands for.
#[derive(Clone, Copy, Debug, PartialEq, Eq, Structural)]
pub struct UseEvent {
    pub linedef_entity: Entity,
}

/// The kinds of component that a template can carry.
#[derive(Clone, Copy, Debug, PartialEq, Eq, Structural)]
pub enum ComponentKind {
    Transform,
    Velocity,
    BoxCollider,
    SpawnOnCeiling,
    SpawnPoint,
    SpriteRender,
    UseAction,
}

/// One component value of any of the kinds a template can carry.
#[derive(Clone, Copy, Debug, PartialEq, Eq, Structural)]
pub enum Component {
    Transform(Transform),
    Velocity(Velocity),
    BoxCollider(BoxCollider),
    SpawnOnCeiling(SpawnOnCeiling),
    SpawnPoint(SpawnPoint),
    SpriteRender(SpriteRender),
    UseAction(UseAction),
}

impl Component {
    /// A collider has sane dimensions and a velocity is in range; values of
    /// the other kinds are always valid.
    pub open spec fn wf(self) -> bool {
        match self {
            Component::BoxCollider(c) => c.wf(),
            Component::Velocity(v) => v.velocity.wf(),
            _ => true,
        }
    }

    pub fn is_valid(&self) -> (b: bool)
        ensures
            b == self.wf(),
    {
        match self {
            Component::BoxCollider(c) => c.is_valid(),
            Component::Velocity(v) => v.velocity.is_valid(),
            _ => true,
        }
    }

    pub open spec fn spec_kind(self) -> ComponentKind {
        match self {
            Component::Transform(_) => ComponentKind::Transform,
            Component::Velocity(_) => ComponentKind::Velocity,
            Component::BoxCollider(_) => ComponentKind::BoxCollider,
            Component::SpawnOnCeiling(_) => ComponentKind::SpawnOnCeiling,
            Component::SpawnPoint(_) => ComponentKind::SpawnPoint,
            Component::SpriteRender(_) => ComponentKind::SpriteRender,
            Component::UseAction(_) => ComponentKind::UseAction,
        }
    }

    /// The kind of this value.
    pub fn kind(&self) -> (k: ComponentKind)
        ensures
            k == self.spec_kind(),
    {
        match self {
            Component::Transform(_) => ComponentKind::Transform,
            Component::Velocity(_) => ComponentKind::Velocity,
            Component::BoxCollider(_) => ComponentKind::BoxCollider,
            Component::SpawnOnCeiling(_) => ComponentKind::SpawnOnCeiling,
            Component::SpawnPoint(_) => ComponentKind::SpawnPoint,
            Component::SpriteRender(_) => ComponentKind::SpriteRender,
            Component::UseAction(_) => ComponentKind::UseAction,
        }
    }
}

} // verus!
