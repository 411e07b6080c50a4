use vstd::prelude::*;
use crate::assets::AssetHandle;
use crate::assets::TextureType;
use crate::components::{Transform, UseAction, UseEvent};
use crate::fixed::{clamp_coord, div_floor, in_range, min, saturate, NANOS_PER_SEC, ONE};
use crate::geometry::Interval;
use crate::map::{
    LevelMap, LinedefDynamic, LinedefRef, MapDynamic, SectorDynamic, SectorRef, SidedefDynamic,
    SidedefSlot,
};
use crate::physics::{box_of, collider_box, over_sector, sector_overlap, BoxCollider};
use crate::world::{colliders_wf, Entity, World};

verus! {

/// What using a door linedef sets off.
#[derive(Clone, Copy, Debug, PartialEq, Eq, Structural)]
pub struct DoorUse {
    pub open_sound: AssetHandle,
    pub close_sound: AssetHandle,
    /// Map units per second.
    pub speed: i64,
    /// Nanoseconds the door stays open.
    pub wait_time: u64,
}

/// What using a door switch sets off.
#[derive(Clone, Copy, Debug, PartialEq, Eq, Structural)]
pub struct DoorSwitchUse {
    pub open_sound: AssetHandle,
    pub close_sound: AssetHandle,
    pub switch_sound: AssetHandle,
    /// Nanoseconds until the switch shows its first texture again.
    pub switch_time: u64,
    pub speed: i64,
    pub wait_time: u64,
}

#[derive(Clone, Copy, Debug, PartialEq, Eq, Structural)]
pub enum DoorState {
    Closed,
    Opening,
    Open,
    Closing,
}

/// A door in motion. Present on a sector's entity only while the door is
/// active.
#[derive(Clone, Copy, Debug, PartialEq, Eq, Structural)]
pub struct DoorActive {
    pub open_sound: AssetHandle,
    pub open_height: i64,
    pub close_sound: AssetHandle,
    pub close_height: i64,
    pub state: DoorState,
    pub speed: i64,
    pub time_left: u64,
    pub wait_time: u64,
}

/// A thrown switch waiting to show its first texture again.
#[derive(Clone, Copy, Debug, PartialEq, Eq, Structural)]
pub struct SwitchActive {
    pub sound: AssetHandle,
    pub texture: AssetHandle,
    pub texture_slot: SidedefSlot,
    pub time_left: u64,
}

/// How far something moving at `speed` units per second gets in `delta`
/// nanoseconds, rounded down.
pub open spec fn travel(speed: int, delta: int) -> int {
    speed * delta / (NANOS_PER_SEC as int)
}

/// How far something moving at `speed` gets in `delta` nanoseconds.
pub fn distance_moved(speed: i64, delta: u64) -> (d: i128)
    ensures
        d == travel(speed as int, delta as int),
        -0x10_0000_0000_0000_0000_0000_0000 < d < 0x10_0000_0000_0000_0000_0000_0000,
{
    proof {
        crate::fixed::lemma_mul_bound(
            speed as int,
            delta as int,
            0x8000_0000_0000_0000,
            0xffff_ffff_ffff_ffff,
        );
        let a = speed * delta;
        let q = a / 1_000_000_000;
        crate::fixed::lemma_div_floor_bounds(a, 1_000_000_000);
        assert(q < 0x10_0000_0000_0000_0000_0000_0000) by (nonlinear_arith)
            requires
                q * 1_000_000_000 <= a,
                a < 0x8000_0000_0000_0000_0000_0000_0000_0000,
        ;
        assert(q > -0x10_0000_0000_0000_0000_0000_0000) by (nonlinear_arith)
            requires
                a < (q + 1) * 1_000_000_000,
                a > -0x8000_0000_0000_0000_0000_0000_0000_0000,
        ;
    }
    let p: i128 = (speed as i128) * (delta as i128);
    div_floor(p, NANOS_PER_SEC as i128)
}

/// What one tick does to a door, besides changing the door itself.
#[derive(Clone, Copy, Debug, PartialEq, Eq, Structural)]
pub struct DoorTick {
    /// The ceiling height of the door's sector after the tick.
    pub ceiling: i64,
    /// The sound to play at the sector, if any.
    pub sound: Option<AssetHandle>,
    /// The door has shut and its `DoorActive` is to be removed.
    pub done: bool,
}

impl DoorActive {
    /// Both heights are coordinates.
    pub open spec fn wf(self) -> bool {
        in_range(self.open_height as int) && in_range(self.close_height as int)
    }

    pub fn is_valid(&self) -> (b: bool)
        ensures
            b == self.wf(),
    {
        -crate::fixed::LIMIT <= self.open_height && self.open_height <= crate::fixed::LIMIT
            && -crate::fixed::LIMIT <= self.close_height && self.close_height
            <= crate::fixed::LIMIT
    }

    /// A door as a use of its linedef leaves it: shut, about to open.
    pub open spec fn spec_started(
        open_sound: AssetHandle,
        close_sound: AssetHandle,
        speed: i64,
        wait_time: u64,
        open_height: i64,
        close_height: i64,
    ) -> DoorActive {
        DoorActive {
            open_sound,
            open_height,
            close_sound,
            close_height,
            state: DoorState::Closed,
            speed,
            time_left: wait_time,
            wait_time,
        }
    }

    pub fn started(
        open_sound: AssetHandle,
        close_sound: AssetHandle,
        speed: i64,
        wait_time: u64,
        open_height: i64,
        close_height: i64,
    ) -> (d: DoorActive)
        ensures
            d == Self::spec_started(
                open_sound,
                close_sound,
                speed,
                wait_time,
                open_height,
                close_height,
            ),
    {
        DoorActive {
            open_sound,
            open_height,
            close_sound,
            close_height,
            state: DoorState::Closed,
            speed,
            time_left: wait_time,
            wait_time,
        }
    }

    /// The door after it is used again while active: a closing door opens
    /// again; an opening or open door closes at the next tick; a door that
    /// was just set off stays as it is.
    pub open spec fn spec_reused(self) -> DoorActive {
        match self.state {
            DoorState::Closing => DoorActive { state: DoorState::Closed, ..self },
            DoorState::Opening | DoorState::Open => DoorActive {
                state: DoorState::Open,
                time_left: 0,
                ..self
            },
            DoorState::Closed => self,
        }
    }

    pub fn reused(self) -> (d: DoorActive)
        ensures
            d == self.spec_reused(),
    {
        match self.state {
            DoorState::Closing => DoorActive { state: DoorState::Closed, ..self },
            DoorState::Opening | DoorState::Open => DoorActive {
                state: DoorState::Open,
                time_left: 0,
                ..self
            },
            DoorState::Closed => self,
        }
    }

    /// The ceiling height that a closing door asks for in this tick, before
    /// anything is known of what stands below it.
    pub open spec fn spec_closing_target(self, ceiling: i64, delta: u64) -> int {
        saturate(ceiling - travel(self.speed as int, delta as int))
    }

    pub fn closing_target(&self, ceiling: i64, delta: u64) -> (h: i64)
        ensures
            h == self.spec_closing_target(ceiling, delta),
            in_range(h as int),
    {
        clamp_coord(ceiling as i128 - distance_moved(self.speed, delta))
    }

    /// The door after one tick of `delta` nanoseconds, with its sector's
    /// ceiling at `ceiling`; `blocked` says whether something stands in the
    /// way of the ceiling coming down to `spec_closing_target`.
    pub open spec fn spec_ticked(self, ceiling: i64, delta: u64, blocked: bool) -> (
        DoorActive,
        DoorTick,
    ) {
        match self.state {
            DoorState::Closed => (
                DoorActive { state: DoorState::Opening, ..self },
                DoorTick { ceiling, sound: Some(self.open_sound), done: false },
            ),
            DoorState::Opening => {
                let raised = saturate(ceiling + travel(self.speed as int, delta as int));
                if raised >= self.open_height {
                    (
                        DoorActive {
                            state: DoorState::Open,
                            time_left: self.wait_time,
                            ..self
                        },
                        DoorTick { ceiling: self.open_height, sound: None, done: false },
                    )
                } else {
                    (self, DoorTick { ceiling: raised as i64, sound: None, done: false })
                }
            },
            DoorState::Open => {
                if self.time_left >= delta {
                    (
                        DoorActive { time_left: (self.time_left - delta) as u64, ..self },
                        DoorTick { ceiling, sound: None, done: false },
                    )
                } else {
                    (
                        DoorActive { state: DoorState::Closing, ..self },
                        DoorTick { ceiling, sound: Some(self.close_sound), done: false },
                    )
                }
            },
            DoorState::Closing => {
                let lowered = self.spec_closing_target(ceiling, delta);
                if blocked {
                    (
                        DoorActive { state: DoorState::Closed, ..self },
                        DoorTick { ceiling, sound: None, done: false },
                    )
                } else if lowered <= self.close_height {
                    (self, DoorTick { ceiling: self.close_height, sound: None, done: true })
                } else {
                    (self, DoorTick { ceiling: lowered as i64, sound: None, done: false })
                }
            },
        }
    }

    /// Advances the door by one tick.
    pub fn tick(&mut self, ceiling: i64, delta: u64, blocked: bool) -> (t: DoorTick)
        ensures
            (*final(self), t) == old(self).spec_ticked(ceiling, delta, blocked),
            old(self).wf() ==> final(self).wf(),
            old(self).wf() && in_range(ceiling as int) ==> in_range(t.ceiling as int),
    {
        match self.state {
            DoorState::Closed => {
                self.state = DoorState::Opening;
                DoorTick { ceiling, sound: Some(self.open_sound), done: false }
            },
            DoorState::Opening => {
                let raised: i64 = clamp_coord(ceiling as i128 + distance_moved(self.speed, delta));
                if raised >= self.open_height {
                    self.state = DoorState::Open;
                    self.time_left = self.wait_time;
                    DoorTick { ceiling: self.open_height, sound: None, done: false }
                } else {
                    DoorTick { ceiling: raised, sound: None, done: false }
                }
            },
            DoorState::Open => {
                if self.time_left >= delta {
                    self.time_left = self.time_left - delta;
                    DoorTick { ceiling, sound: None, done: false }
                } else {
                    self.state = DoorState::Closing;
                    DoorTick { ceiling, sound: Some(self.close_sound), done: false }
                }
            },
            DoorState::Closing => {
                let lowered: i64 = self.closing_target(ceiling, delta);
                if blocked {
                    self.state = DoorState::Closed;
                    DoorTick { ceiling, sound: None, done: false }
                } else if lowered <= self.close_height {
                    DoorTick { ceiling: self.close_height, sound: None, done: true }
                } else {
                    DoorTick { ceiling: lowered, sound: None, done: false }
                }
            },
        }
    }
}

impl SwitchActive {
    /// The switch after a tick of `delta` nanoseconds, or `None` when its
    /// time is up and it is to show its first texture again.
    pub open spec fn spec_ticked(self, delta: u64) -> Option<SwitchActive> {
        if self.time_left >= delta {
            Some(SwitchActive { time_left: (self.time_left - delta) as u64, ..self })
        } else {
            None
        }
    }

    pub fn ticked(self, delta: u64) -> (r: Option<SwitchActive>)
        ensures
            r == self.spec_ticked(delta),
    {
        if self.time_left >= delta {
            Some(SwitchActive { time_left: self.time_left - delta, ..self })
        } else {
            None
        }
    }
}

/// How far below the lowest neighbouring ceiling a door stops when it
/// opens: four map units.
pub const DOOR_CLEARANCE: i64 = 262144;

/// The lowest ceiling among the sectors `neighbours`, if there are any.
pub open spec fn lowest_ceiling(neighbours: Seq<usize>, sectors: Seq<SectorDynamic>) -> Option<int>
    decreases neighbours.len(),
{
    if neighbours.len() == 0 {
        None
    } else {
        let h = sectors[neighbours.last() as int].interval.max as int;
        match lowest_ceiling(neighbours.drop_last(), sectors) {
            Some(m) => Some(min(m, h)),
            None => Some(h),
        }
    }
}

/// The height to which the door of sector `sector_index` opens: four units
/// below the lowest ceiling of the sectors around it. A sector without
/// neighbours has none.
pub open spec fn spec_open_height(map: LevelMap, sectors: Seq<SectorDynamic>, sector_index: int)
    -> Option<int> {
    match lowest_ceiling(map.sectors[sector_index].neighbours@, sectors) {
        Some(m) => Some(saturate(m - DOOR_CLEARANCE)),
        None => None,
    }
}

/// The lowest ceiling is that of one of the neighbours, and no neighbour's
/// is lower.
pub proof fn lemma_lowest_ceiling(neighbours: Seq<usize>, sectors: Seq<SectorDynamic>)
    ensures
        lowest_ceiling(neighbours, sectors) is None <==> neighbours.len() == 0,
        lowest_ceiling(neighbours, sectors) matches Some(m) ==> {
            &&& forall|j: int|
                0 <= j < neighbours.len() ==> m <= sectors[(
                #[trigger] neighbours[j]) as int].interval.max
            &&& exists|j: int|
                0 <= j < neighbours.len() && m == sectors[(
                #[trigger] neighbours[j]) as int].interval.max
        },
    decreases neighbours.len(),
{
    if neighbours.len() > 0 {
        let init = neighbours.drop_last();
        lemma_lowest_ceiling(init, sectors);
        let m = lowest_ceiling(neighbours, sectors)->0;
        let last = neighbours.len() - 1;
        assert(neighbours.last() == neighbours[last]);
        assert forall|j: int| 0 <= j < neighbours.len() implies m <= sectors[(
        #[trigger] neighbours[j]) as int].interval.max by {
            if j < last {
                assert(init[j] == neighbours[j]);
            }
        }
        if m == sectors[neighbours[last] as int].interval.max {
        } else {
            let j = choose|j: int|
                0 <= j < init.len() && m == sectors[(#[trigger] init[j]) as int].interval.max;
            assert(init[j] == neighbours[j]);
        }
    }
}

/// The height to which the door of a sector opens.
pub fn open_height(map: &LevelMap, map_dynamic: &MapDynamic, sector_index: usize) -> (r: Option<
    i64,
>)
    requires
        map.wf(),
        map_dynamic.wf(*map),
        sector_index < map.sectors.len(),
    ensures
        match r {
            Some(h) => spec_open_height(*map, map_dynamic.sectors@, sector_index as int) == Some(
                h as int,
            ) && in_range(h as int),
            None => spec_open_height(*map, map_dynamic.sectors@, sector_index as int) is None,
        },
{
    let sector = &map.sectors[sector_index];
    assert(map.sector_ok(*sector));
    let mut lowest: Option<i64> = None;
    let mut j: usize = 0;
    assert(sector.neighbours@.take(0) =~= Seq::<usize>::empty());
    while j < sector.neighbours.len()
        invariant
            j <= sector.neighbours.len(),
            map.sector_ok(*sector),
            map_dynamic.sectors.len() == map.sectors.len(),
            match lowest {
                Some(m) => lowest_ceiling(sector.neighbours@.take(j as int), map_dynamic.sectors@)
                    == Some(m as int),
                None => lowest_ceiling(sector.neighbours@.take(j as int), map_dynamic.sectors@)
                    is None,
            },
        decreases sector.neighbours.len() - j,
    {
        let h: i64 = map_dynamic.sectors[sector.neighbours[j]].interval.max;
        proof {
            let now = sector.neighbours@.take(j + 1);
            assert(now.drop_last() =~= sector.neighbours@.take(j as int));
            assert(now.last() == sector.neighbours@[j as int]);
        }
        lowest =
        match lowest {
            Some(m) => Some(
                if m <= h {
                    m
                } else {
                    h
                },
            ),
            None => Some(h),
        };
        j += 1;
    }
    assert(sector.neighbours@.take(j as int) =~= sector.neighbours@);
    match lowest {
        Some(m) => Some(clamp_coord(m as i128 - DOOR_CLEARANCE as i128)),
        None => None,
    }
}

/// Something stands in the way of the ceiling of sector `sector_index`
/// coming down to `target`: an entity with a collider whose box reaches above
/// `target` and overlaps the sector in plan view.
pub open spec fn spec_blocked(
    map: LevelMap,
    transforms: Seq<Option<Transform>>,
    box_colliders: Seq<Option<BoxCollider>>,
    sector_index: int,
    target: int,
) -> bool {
    exists|i: int|
        0 <= i < transforms.len() && i < box_colliders.len() && #[trigger] stands_under(
            map,
            transforms[i],
            box_colliders[i],
            sector_index,
            target,
        )
}

pub open spec fn stands_under(
    map: LevelMap,
    transform: Option<Transform>,
    collider: Option<BoxCollider>,
    sector_index: int,
    target: int,
) -> bool {
    match (transform, collider) {
        (Some(t), Some(c)) => {
            let b = collider_box(c, t.position);
            b.z.max > target && over_sector(map, sector_index, b.plan())
        },
        _ => false,
    }
}

/// Whether an entity stands in the way of a ceiling coming down to `target`.
pub fn sector_blocked(
    map: &LevelMap,
    transforms: &Vec<Option<Transform>>,
    box_colliders: &Vec<Option<BoxCollider>>,
    sector_index: usize,
    target: i64,
) -> (r: bool)
    requires
        map.wf(),
        sector_index < map.sectors.len(),
        transforms.len() == box_colliders.len(),
        colliders_wf(box_colliders@),
    ensures
        r == spec_blocked(*map, transforms@, box_colliders@, sector_index as int, target as int),
{
    let mut i: usize = 0;
    while i < transforms.len()
        invariant
            i <= transforms.len(),
            map.wf(),
            sector_index < map.sectors.len(),
            transforms.len() == box_colliders.len(),
            colliders_wf(box_colliders@),
            forall|k: int|
                0 <= k < i ==> !#[trigger] stands_under(
                    *map,
                    transforms@[k],
                    box_colliders@[k],
                    sector_index as int,
                    target as int,
                ),
        decreases transforms.len() - i,
    {
        if let (Some(t), Some(c)) = (&transforms[i], &box_colliders[i]) {
            let b = box_of(c, t.position);
            if b.z.max > target && sector_overlap(map, sector_index, &b.to_plan()) {
                assert(stands_under(
                    *map,
                    transforms@[i as int],
                    box_colliders@[i as int],
                    sector_index as int,
                    target as int,
                ));
                return true;
            }
        }
        i += 1;
    }
    false
}

/// The texture that a switch showing `texture` changes to, if `texture` is
/// that of a switch: the partner of its first entry in the list.
pub open spec fn switch_partner(switches: Seq<(AssetHandle, AssetHandle)>, texture: AssetHandle)
    -> Option<AssetHandle>
    decreases switches.len(),
{
    if switches.len() == 0 {
        None
    } else if switches[0].0 == texture {
        Some(switches[0].1)
    } else {
        switch_partner(switches.drop_first(), texture)
    }
}

pub fn find_switch_partner(switches: &Vec<(AssetHandle, AssetHandle)>, texture: AssetHandle) -> (r:
    Option<AssetHandle>)
    ensures
        r == switch_partner(switches@, texture),
{
    let mut i: usize = 0;
    assert(switches@.skip(0) =~= switches@);
    while i < switches.len()
        invariant
            i <= switches.len(),
            switch_partner(switches@, texture) == switch_partner(switches@.skip(i as int), texture),
        decreases switches.len() - i,
    {
        let pair = switches[i];
        proof {
            assert(switches@.skip(i as int)[0] == switches@[i as int]);
            assert(switches@.skip(i as int).drop_first() =~= switches@.skip(i + 1));
        }
        if pair.0 == texture {
            return Some(pair.1);
        }
        i += 1;
    }
    None
}

/// The slots of a wall face in the order in which a switch texture is
/// looked for.
pub open spec fn slot_order() -> Seq<SidedefSlot> {
    seq![SidedefSlot::Top, SidedefSlot::Middle, SidedefSlot::Bottom]
}

/// The switch texture on a wall face: the first slot, in `slot_order` from
/// `from` on, that shows a texture with a partner, with that texture and its
/// partner.
pub open spec fn switch_face(
    switches: Seq<(AssetHandle, AssetHandle)>,
    textures: Seq<TextureType>,
    from: int,
) -> Option<(SidedefSlot, AssetHandle, AssetHandle)>
    decreases 3 - from,
{
    if from < 0 || from >= 3 {
        None
    } else {
        let slot = slot_order()[from];
        match textures[slot.spec_index()] {
            TextureType::Normal(t) => match switch_partner(switches, t) {
                Some(p) => Some((slot, t, p)),
                None => switch_face(switches, textures, from + 1),
            },
            _ => switch_face(switches, textures, from + 1),
        }
    }
}

pub fn find_switch_face(switches: &Vec<(AssetHandle, AssetHandle)>, textures: &[TextureType; 3])
    -> (r: Option<(SidedefSlot, AssetHandle, AssetHandle)>)
    ensures
        r == switch_face(switches@, textures@, 0),
{
    let order = [SidedefSlot::Top, SidedefSlot::Middle, SidedefSlot::Bottom];
    assert(order@ =~= slot_order());
    let mut k: usize = 0;
    while k < 3
        invariant
            k <= 3,
            order@ == slot_order(),
            switch_face(switches@, textures@, 0) == switch_face(switches@, textures@, k as int),
        decreases 3 - k,
    {
        let slot = order[k];
        if let TextureType::Normal(t) = textures[slot.index()] {
            if let Some(p) = find_switch_partner(switches, t) {
                return Some((slot, t, p));
            }
        }
        k += 1;
    }
    None
}

/// What the door and switch mechanisms change, as plain values.
pub struct DoorScene {
    /// The active door of each entity, in creation order.
    pub doors: Seq<Option<DoorActive>>,
    /// The thrown switch of each entity, in creation order.
    pub switches: Seq<Option<SwitchActive>>,
    /// The live state of each sector.
    pub sectors: Seq<SectorDynamic>,
    /// The live textures of the front face of each linedef that has one.
    pub faces: Seq<Option<Seq<TextureType>>>,
    /// The sounds asked for so far, each with the entity it sounds at.
    pub sounds: Seq<(AssetHandle, Entity)>,
}

/// What the door and switch mechanisms read and leave alone.
pub struct DoorSetting {
    pub map: LevelMap,
    /// The entity that carries the live state of the level.
    pub map_entity: Entity,
    pub use_actions: Seq<Option<UseAction>>,
    pub linedef_refs: Seq<Option<LinedefRef>>,
    pub sector_refs: Seq<Option<SectorRef>>,
    pub transforms: Seq<Option<Transform>>,
    pub box_colliders: Seq<Option<BoxCollider>>,
}

/// The doors of the sectors tagged `tag` after a switch is used, looking at
/// the first `upto` sectors, and whether the switch found anything to do. A
/// tagged sector whose door is already active is passed over; any other
/// counts as something to do, and its door is set off if it has a height to
/// open to.
pub open spec fn activated(
    map: LevelMap,
    doors: Seq<Option<DoorActive>>,
    sectors: Seq<SectorDynamic>,
    tag: u16,
    su: DoorSwitchUse,
    upto: nat,
) -> (Seq<Option<DoorActive>>, bool)
    decreases upto,
{
    if upto == 0 {
        (doors, false)
    } else {
        let before = activated(map, doors, sectors, tag, su, (upto - 1) as nat);
        let i = upto - 1;
        let e = sectors[i].entity.id as int;
        if map.sectors[i].sector_tag != tag || e >= before.0.len() || before.0[e] is Some {
            before
        } else {
            match spec_open_height(map, sectors, i) {
                Some(h) => (
                    before.0.update(
                        e,
                        Some(
                            DoorActive::spec_started(
                                su.open_sound,
                                su.close_sound,
                                su.speed,
                                su.wait_time,
                                h as i64,
                                sectors[i].interval.min,
                            ),
                        ),
                    ),
                    true,
                ),
                None => (before.0, true),
            }
        }
    }
}

/// Why the use of a door did nothing.
#[derive(Clone, Copy, Debug, PartialEq, Eq, Structural)]
pub enum DoorProblem {
    /// The door linedef at this position has no sector behind it.
    NoBackSector(usize),
    /// The door sector at this position has no neighbour to open up to.
    NoNeighbours(usize),
}

/// The doors that a switch could not set off among the first `upto`
/// sectors: those tagged `tag` and not active that have no height to open to.
pub open spec fn activation_problems(
    map: LevelMap,
    doors: Seq<Option<DoorActive>>,
    sectors: Seq<SectorDynamic>,
    tag: u16,
    su: DoorSwitchUse,
    upto: nat,
) -> Seq<DoorProblem>
    decreases upto,
{
    if upto == 0 {
        Seq::empty()
    } else {
        let before = activated(map, doors, sectors, tag, su, (upto - 1) as nat);
        let rest = activation_problems(map, doors, sectors, tag, su, (upto - 1) as nat);
        let i = upto - 1;
        let e = sectors[i].entity.id as int;
        if map.sectors[i].sector_tag != tag || e >= before.0.len() || before.0[e] is Some {
            rest
        } else if spec_open_height(map, sectors, i) is None {
            rest.push(DoorProblem::NoNeighbours(i as usize))
        } else {
            rest
        }
    }
}

impl DoorSetting {
    /// The linedef that the entity in row `l` stands for, if it stands for
    /// one of this level.
    pub open spec fn used_linedef(self, l: int) -> Option<int> {
        if 0 <= l < self.linedef_refs.len() {
            match self.linedef_refs[l] {
                Some(r) => if r.map_entity == self.map_entity && r.index < self.map.linedefs.len() {
                    Some(r.index as int)
                } else {
                    None
                },
                None => None,
            }
        } else {
            None
        }
    }

    /// The scene after the door linedef `li` is used: the door of the sector
    /// behind it is set off, or, if it is active already, turned round.
    /// Nothing happens without a sector behind the linedef, or without a
    /// height for the door to open to.
    pub open spec fn door_used(self, st: DoorScene, du: DoorUse, li: int) -> DoorScene {
        match self.map.linedefs[li].sidedefs[1] {
            None => st,
            Some(back) => {
                let si = back.sector_index as int;
                let e = st.sectors[si].entity.id as int;
                if e >= st.doors.len() {
                    st
                } else {
                    match st.doors[e] {
                        Some(door) => DoorScene {
                            doors: st.doors.update(e, Some(door.spec_reused())),
                            ..st
                        },
                        None => match spec_open_height(self.map, st.sectors, si) {
                            Some(h) => DoorScene {
                                doors: st.doors.update(
                                    e,
                                    Some(
                                        DoorActive::spec_started(
                                            du.open_sound,
                                            du.close_sound,
                                            du.speed,
                                            du.wait_time,
                                            h as i64,
                                            st.sectors[si].interval.min,
                                        ),
                                    ),
                                ),
                                ..st
                            },
                            None => st,
                        },
                    }
                }
            },
        }
    }

    /// The scene after the switch on linedef `li`, which entity row `l`
    /// stands for, changes its face: the first switch texture on the front
    /// face gives way to its partner, the switch sounds at the sector in
    /// front, and the entity remembers the texture to go back to.
    pub open spec fn flipped(self, st: DoorScene, su: DoorSwitchUse, l: int, li: int) -> DoorScene {
        match (self.map.linedefs[li].sidedefs[0], st.faces[li]) {
            (Some(front), Some(textures)) => match switch_face(self.map.switches@, textures, 0) {
                Some((slot, shown, partner)) => DoorScene {
                    faces: st.faces.update(
                        li,
                        Some(textures.update(slot.spec_index(), TextureType::Normal(partner))),
                    ),
                    sounds: st.sounds.push(
                        (su.switch_sound, st.sectors[front.sector_index as int].entity),
                    ),
                    switches: st.switches.update(
                        l,
                        Some(
                            SwitchActive {
                                sound: su.switch_sound,
                                texture: shown,
                                texture_slot: slot,
                                time_left: su.switch_time,
                            },
                        ),
                    ),
                    ..st
                },
                None => st,
            },
            _ => st,
        }
    }

    /// The scene after the door switch on linedef `li` is used.
    pub open spec fn switch_used(self, st: DoorScene, su: DoorSwitchUse, l: int, li: int)
        -> DoorScene {
        let a = activated(
            self.map,
            st.doors,
            st.sectors,
            self.map.linedefs[li].sector_tag,
            su,
            self.map.sectors.len() as nat,
        );
        let set_off = DoorScene { doors: a.0, ..st };
        if a.1 {
            self.flipped(set_off, su, l, li)
        } else {
            set_off
        }
    }

    /// The scene after one use event. An event for an entity without a use
    /// action, or one that stands for no linedef of this level, changes
    /// nothing; nor does the use of a switch that is still thrown.
    pub open spec fn after_use(self, st: DoorScene, ev: UseEvent) -> DoorScene {
        let l = ev.linedef_entity.id as int;
        if l >= self.use_actions.len() {
            st
        } else {
            match (self.use_actions[l], self.used_linedef(l)) {
                (Some(UseAction::DoorUse(du)), Some(li)) => self.door_used(st, du, li),
                (Some(UseAction::DoorSwitchUse(su)), Some(li)) => if st.switches[l] is Some {
                    st
                } else {
                    self.switch_used(st, su, l, li)
                },
                _ => st,
            }
        }
    }

    /// The scene after the events, taken in order.
    pub open spec fn after_uses(self, st: DoorScene, events: Seq<UseEvent>) -> DoorScene
        decreases events.len(),
    {
        if events.len() == 0 {
            st
        } else {
            self.after_use(self.after_uses(st, events.drop_last()), events.last())
        }
    }

    /// What is wrong with the level where one use event finds a door that
    /// cannot open.
    pub open spec fn use_problems(self, st: DoorScene, ev: UseEvent) -> Seq<DoorProblem> {
        let l = ev.linedef_entity.id as int;
        if l >= self.use_actions.len() {
            Seq::empty()
        } else {
            match (self.use_actions[l], self.used_linedef(l)) {
                (Some(UseAction::DoorUse(du)), Some(li)) => match self.map.linedefs[li].sidedefs[1] {
                    None => seq![DoorProblem::NoBackSector(li as usize)],
                    Some(back) => {
                        let si = back.sector_index as int;
                        let e = st.sectors[si].entity.id as int;
                        if e < st.doors.len() && st.doors[e] is None && spec_open_height(
                            self.map,
                            st.sectors,
                            si,
                        ) is None {
                            seq![DoorProblem::NoNeighbours(si as usize)]
                        } else {
                            Seq::empty()
                        }
                    },
                },
                (Some(UseAction::DoorSwitchUse(su)), Some(li)) => if st.switches[l] is Some {
                    Seq::empty()
                } else {
                    activation_problems(
                        self.map,
                        st.doors,
                        st.sectors,
                        self.map.linedefs[li].sector_tag,
                        su,
                        self.map.sectors.len() as nat,
                    )
                },
                _ => Seq::empty(),
            }
        }
    }

    /// What is wrong with the level where the events, taken in order, find
    /// doors that cannot open.
    pub open spec fn uses_problems(self, st: DoorScene, events: Seq<UseEvent>) -> Seq<DoorProblem>
        decreases events.len(),
    {
        if events.len() == 0 {
            Seq::empty()
        } else {
            self.uses_problems(st, events.drop_last()) + self.use_problems(
                self.after_uses(st, events.drop_last()),
                events.last(),
            )
        }
    }

    /// The scene after the door of entity row `i`, if it has one and stands
    /// for a sector of this level, has ticked: the door changes as
    /// `DoorActive::spec_ticked` says, its sector's ceiling follows, its
    /// sound is asked for at the entity, and a door that has shut is removed.
    pub open spec fn door_ticked(self, st: DoorScene, i: int, delta: u64) -> DoorScene {
        match (self.sector_refs[i], st.doors[i]) {
            (Some(r), Some(door)) => if r.map_entity == self.map_entity && r.index
                < st.sectors.len() {
                let sector = st.sectors[r.index as int];
                let ceiling = sector.interval.max;
                let blocked = spec_blocked(
                    self.map,
                    self.transforms,
                    self.box_colliders,
                    r.index as int,
                    door.spec_closing_target(ceiling, delta),
                );
                let t = door.spec_ticked(ceiling, delta, blocked);
                DoorScene {
                    doors: st.doors.update(
                        i,
                        if t.1.done {
                            None
                        } else {
                            Some(t.0)
                        },
                    ),
                    sectors: st.sectors.update(
                        r.index as int,
                        SectorDynamic {
                            interval: Interval { min: sector.interval.min, max: t.1.ceiling },
                            ..sector
                        },
                    ),
                    sounds: match t.1.sound {
                        Some(sound) => st.sounds.push((sound, Entity { id: i as usize })),
                        None => st.sounds,
                    },
                    ..st
                }
            } else {
                st
            },
            _ => st,
        }
    }

    /// The scene after the doors of the first `upto` entities have ticked,
    /// in creation order.
    pub open spec fn doors_ticked(self, st: DoorScene, upto: nat, delta: u64) -> DoorScene
        decreases upto,
    {
        if upto == 0 {
            st
        } else {
            self.door_ticked(self.doors_ticked(st, (upto - 1) as nat, delta), upto - 1, delta)
        }
    }

    /// The scene after the thrown switch of entity row `i`, if it has one,
    /// has ticked: its time runs down, and when none is left the switch is
    /// removed, its face shows the remembered texture again, and its sound is
    /// asked for at the sector in front.
    pub open spec fn switch_ticked(self, st: DoorScene, i: int, delta: u64) -> DoorScene {
        match (self.linedef_refs[i], st.switches[i]) {
            (Some(r), Some(switch)) => match switch.spec_ticked(delta) {
                Some(later) => DoorScene { switches: st.switches.update(i, Some(later)), ..st },
                None => match self.used_linedef(i) {
                    Some(li) => match (self.map.linedefs[li].sidedefs[0], st.faces[li]) {
                        (Some(front), Some(textures)) => DoorScene {
                            switches: st.switches.update(i, None),
                            faces: st.faces.update(
                                li,
                                Some(
                                    textures.update(
                                        switch.texture_slot.spec_index(),
                                        TextureType::Normal(switch.texture),
                                    ),
                                ),
                            ),
                            sounds: st.sounds.push(
                                (switch.sound, st.sectors[front.sector_index as int].entity),
                            ),
                            ..st
                        },
                        _ => DoorScene { switches: st.switches.update(i, None), ..st },
                    },
                    None => DoorScene { switches: st.switches.update(i, None), ..st },
                },
            },
            _ => st,
        }
    }

    /// The scene after the switches of the first `upto` entities have
    /// ticked, in creation order.
    pub open spec fn switches_ticked(self, st: DoorScene, upto: nat, delta: u64) -> DoorScene
        decreases upto,
    {
        if upto == 0 {
            st
        } else {
            self.switch_ticked(self.switches_ticked(st, (upto - 1) as nat, delta), upto - 1, delta)
        }
    }

    /// The scene after one run of the mechanisms: the events are taken in
    /// order, then every door ticks, then every switch.
    pub open spec fn after_run(self, st: DoorScene, events: Seq<UseEvent>, delta: u64)
        -> DoorScene {
        let n = self.use_actions.len();
        self.switches_ticked(self.doors_ticked(self.after_uses(st, events), n, delta), n, delta)
    }
}

/// Using a switch again while it is still thrown changes nothing: not the
/// doors, not the switch's time, not a texture, and no sound is asked for.
pub proof fn lemma_thrown_switch_ignores_use(setting: DoorSetting, st: DoorScene, ev: UseEvent)
    requires
        ev.linedef_entity.id < setting.use_actions.len(),
        setting.use_actions[ev.linedef_entity.id as int] matches Some(UseAction::DoorSwitchUse(_)),
        st.switches[ev.linedef_entity.id as int] is Some,
    ensures
        setting.after_use(st, ev) == st,
{
}

impl DoorSetting {
    /// Entity row `i` carries an active door and stands for a sector of this
    /// level.
    pub open spec fn is_door(self, st: DoorScene, i: int) -> bool {
        &&& 0 <= i < st.doors.len()
        &&& st.doors[i] is Some
        &&& self.sector_refs[i] matches Some(r) && r.map_entity == self.map_entity && r.index
            < st.sectors.len()
    }

    /// The ceiling of the sector that entity row `i` stands for.
    pub open spec fn door_ceiling(self, st: DoorScene, i: int) -> i64 {
        st.sectors[self.sector_refs[i]->0.index as int].interval.max
    }

    /// A door in state `Closed` starts to open in the tick: it asks once for
    /// its opening sound, at its own entity, and its ceiling stays.
    pub proof fn lemma_closed_door_starts(self, st: DoorScene, i: int, delta: u64)
        requires
            self.is_door(st, i),
            st.doors[i]->0.state == DoorState::Closed,
        ensures
            self.door_ticked(st, i, delta).doors[i] == Some(
                DoorActive { state: DoorState::Opening, ..st.doors[i]->0 },
            ),
            self.door_ticked(st, i, delta).sounds == st.sounds.push(
                (st.doors[i]->0.open_sound, Entity { id: i as usize }),
            ),
            self.door_ceiling(self.door_ticked(st, i, delta), i) == self.door_ceiling(st, i),
    {
    }

    /// An opening door rises by its speed times the time of the tick; once
    /// that reaches its open height it stops at exactly that height, is open
    /// and is given its whole waiting time. It asks for no sound.
    pub proof fn lemma_opening_door_rises(self, st: DoorScene, i: int, delta: u64)
        requires
            self.is_door(st, i),
            st.doors[i]->0.state == DoorState::Opening,
        ensures
            ({
                let door = st.doors[i]->0;
                let after = self.door_ticked(st, i, delta);
                let raised = saturate(
                    self.door_ceiling(st, i) + travel(door.speed as int, delta as int),
                );
                &&& after.sounds == st.sounds
                &&& raised >= door.open_height ==> self.door_ceiling(after, i) == door.open_height
                    && after.doors[i] == Some(
                    DoorActive { state: DoorState::Open, time_left: door.wait_time, ..door },
                )
                &&& raised < door.open_height ==> self.door_ceiling(after, i) == raised
                    && after.doors[i] == Some(door)
            }),
    {
    }

    /// An open door counts its time down and, when less is left than the
    /// tick takes, starts to close and asks for its closing sound. Its
    /// ceiling stays.
    pub proof fn lemma_open_door_waits(self, st: DoorScene, i: int, delta: u64)
        requires
            self.is_door(st, i),
            st.doors[i]->0.state == DoorState::Open,
        ensures
            ({
                let door = st.doors[i]->0;
                let after = self.door_ticked(st, i, delta);
                &&& self.door_ceiling(after, i) == self.door_ceiling(st, i)
                &&& door.time_left >= delta ==> after.sounds == st.sounds && after.doors[i] == Some(
                    DoorActive { time_left: (door.time_left - delta) as u64, ..door },
                )
                &&& door.time_left < delta ==> after.doors[i] == Some(
                    DoorActive { state: DoorState::Closing, ..door },
                ) && after.sounds == st.sounds.push((door.close_sound, Entity { id: i as usize }))
            }),
    {
    }

    /// A closing door with nothing in its way comes down by its speed times
    /// the time of the tick, stops at exactly its close height, and is
    /// removed there; with something in its way it keeps its ceiling and
    /// goes back to `Closed`, to open again. Either way it asks for no sound.
    pub proof fn lemma_closing_door_lowers(self, st: DoorScene, i: int, delta: u64)
        requires
            self.is_door(st, i),
            st.doors[i]->0.state == DoorState::Closing,
        ensures
            ({
                let door = st.doors[i]->0;
                let after = self.door_ticked(st, i, delta);
                let lowered = door.spec_closing_target(self.door_ceiling(st, i), delta);
                let blocked = spec_blocked(
                    self.map,
                    self.transforms,
                    self.box_colliders,
                    self.sector_refs[i]->0.index as int,
                    lowered,
                );
                &&& after.sounds == st.sounds
                &&& blocked ==> self.door_ceiling(after, i) == self.door_ceiling(st, i)
                    && after.doors[i] == Some(DoorActive { state: DoorState::Closed, ..door })
                &&& !blocked && lowered <= door.close_height ==> self.door_ceiling(after, i)
                    == door.close_height && after.doors[i] is None
                &&& !blocked && lowered > door.close_height ==> self.door_ceiling(after, i)
                    == lowered && after.doors[i] == Some(door)
            }),
    {
    }

    /// Where entity row `i` is the only one with a door, a tick of every
    /// door is a tick of that one.
    pub proof fn lemma_lone_door(self, st: DoorScene, i: int, upto: nat, delta: u64)
        requires
            0 <= i < st.doors.len(),
            upto <= st.doors.len(),
            forall|j: int| 0 <= j < st.doors.len() && j != i ==> (#[trigger] st.doors[j]) is None,
        ensures
            self.doors_ticked(st, upto, delta) == if i < upto {
                self.door_ticked(st, i, delta)
            } else {
                st
            },
        decreases upto,
    {
        if upto > 0 {
            self.lemma_lone_door(st, i, (upto - 1) as nat, delta);
            let j = upto - 1;
            let before = self.doors_ticked(st, j as nat, delta);
            if j > i {
                assert(st.doors[j] is None);
                assert(before.doors[j] is None);
            } else if j < i {
                assert(st.doors[j] is None);
            }
        }
    }

    /// Where no switch is thrown, a tick of every switch changes nothing.
    pub proof fn lemma_no_switches(self, st: DoorScene, upto: nat, delta: u64)
        requires
            upto <= st.switches.len(),
            forall|j: int| 0 <= j < st.switches.len() ==> (#[trigger] st.switches[j]) is None,
        ensures
            self.switches_ticked(st, upto, delta) == st,
        decreases upto,
    {
        if upto > 0 {
            self.lemma_no_switches(st, (upto - 1) as nat, delta);
            assert(st.switches[upto - 1] is None);
        }
    }

    /// A run without events in a world whose only mechanism is the door of
    /// entity row `i` is one tick of that door.
    pub proof fn lemma_lone_door_run(self, st: DoorScene, i: int, delta: u64)
        requires
            0 <= i < st.doors.len(),
            st.doors.len() == self.use_actions.len(),
            st.switches.len() == self.use_actions.len(),
            forall|j: int| 0 <= j < st.doors.len() && j != i ==> (#[trigger] st.doors[j]) is None,
            forall|j: int| 0 <= j < st.switches.len() ==> (#[trigger] st.switches[j]) is None,
        ensures
            self.after_run(st, Seq::empty(), delta) == self.door_ticked(st, i, delta),
    {
        let n = self.use_actions.len();
        assert(self.after_uses(st, Seq::empty()) == st);
        self.lemma_lone_door(st, i, n, delta);
        let ticked = self.door_ticked(st, i, delta);
        assert(ticked.switches == st.switches);
        self.lemma_no_switches(ticked, n, delta);
    }
}

pub open spec fn doors_wf(s: Seq<Option<DoorActive>>) -> bool {
    forall|i: int| 0 <= i < s.len() ==> ((#[trigger] s[i]) matches Some(d) ==> d.wf())
}

impl MapDynamic {
    /// The live textures of the front face of each linedef that has one.
    pub open spec fn faces(self) -> Seq<Option<Seq<TextureType>>> {
        Seq::new(
            self.linedefs.len() as nat,
            |i: int|
                match self.linedefs[i].sidedefs[0] {
                    Some(side) => Some(side.textures@),
                    None => None,
                },
        )
    }

    /// Nothing differs between the two but sector states and the textures
    /// of front faces.
    pub open spec fn framed(self, before: MapDynamic) -> bool {
        &&& self.anim_states_flat@ == before.anim_states_flat@
        &&& self.anim_states_wall@ == before.anim_states_wall@
        &&& self.map == before.map
        &&& self.linedefs.len() == before.linedefs.len()
        &&& self.sectors.len() == before.sectors.len()
        &&& forall|i: int|
            0 <= i < self.linedefs.len() ==> {
                &&& (#[trigger] self.linedefs[i]).entity == before.linedefs[i].entity
                &&& self.linedefs[i].texture_offset == before.linedefs[i].texture_offset
                &&& self.linedefs[i].sidedefs[1] == before.linedefs[i].sidedefs[1]
                &&& self.linedefs[i].sidedefs[0] is Some == before.linedefs[i].sidedefs[0] is Some
            }
    }
}

/// The door scene that a world, the live state of its level and the sound
/// queue make up.
pub open spec fn scene_of(world: World, map_dynamic: MapDynamic, sounds: Seq<(AssetHandle, Entity)>)
    -> DoorScene {
    DoorScene {
        doors: world.door_actives@,
        switches: world.switch_actives@,
        sectors: map_dynamic.sectors@,
        faces: map_dynamic.faces(),
        sounds,
    }
}

pub open spec fn setting_of(world: World, map: LevelMap, map_entity: Entity) -> DoorSetting {
    DoorSetting {
        map,
        map_entity,
        use_actions: world.use_actions@,
        linedef_refs: world.linedef_refs@,
        sector_refs: world.sector_refs@,
        transforms: world.transforms@,
        box_colliders: world.box_colliders@,
    }
}

impl World {
    /// The tables that the door mechanisms leave alone, the live state of
    /// the level aside, are the same in both worlds.
    pub open spec fn same_but_doors(self, other: World) -> bool {
        &&& self.alive@ == other.alive@
        &&& self.transforms@ == other.transforms@
        &&& self.velocities@ == other.velocities@
        &&& self.box_colliders@ == other.box_colliders@
        &&& self.spawn_on_ceilings@ == other.spawn_on_ceilings@
        &&& self.spawn_points@ == other.spawn_points@
        &&& self.sprite_renders@ == other.sprite_renders@
        &&& self.use_actions@ == other.use_actions@
        &&& self.linedef_refs@ == other.linedef_refs@
        &&& self.sector_refs@ == other.sector_refs@
    }
}

/// Sets off the doors of all sectors tagged `tag` that are not active yet.
pub fn activate_tagged(
    doors: &mut Vec<Option<DoorActive>>,
    map: &LevelMap,
    map_dynamic: &MapDynamic,
    tag: u16,
    su: DoorSwitchUse,
    problems: &mut Vec<DoorProblem>,
) -> (used: bool)
    requires
        map.wf(),
        map_dynamic.wf(*map),
        doors_wf(old(doors)@),
    ensures
        (final(doors)@, used) == activated(
            *map,
            old(doors)@,
            map_dynamic.sectors@,
            tag,
            su,
            map.sectors.len() as nat,
        ),
        final(problems)@ == old(problems)@ + activation_problems(
            *map,
            old(doors)@,
            map_dynamic.sectors@,
            tag,
            su,
            map.sectors.len() as nat,
        ),
        final(doors).len() == old(doors).len(),
        doors_wf(final(doors)@),
{
    let mut used = false;
    let mut i: usize = 0;
    assert(problems@ =~= old(problems)@ + Seq::<DoorProblem>::empty());
    while i < map.sectors.len()
        invariant
            i <= map.sectors.len(),
            map.wf(),
            map_dynamic.wf(*map),
            doors.len() == old(doors).len(),
            doors_wf(doors@),
            (doors@, used) == activated(
                *map,
                old(doors)@,
                map_dynamic.sectors@,
                tag,
                su,
                i as nat,
            ),
            problems@ == old(problems)@ + activation_problems(
                *map,
                old(doors)@,
                map_dynamic.sectors@,
                tag,
                su,
                i as nat,
            ),
        decreases map.sectors.len() - i,
    {
        let ghost found = activation_problems(
            *map,
            old(doors)@,
            map_dynamic.sectors@,
            tag,
            su,
            i as nat,
        );
        let e = map_dynamic.sectors[i].entity.id;
        if map.sectors[i].sector_tag == tag && e < doors.len() && doors[e].is_none() {
            used = true;
            match open_height(map, map_dynamic, i) {
                Some(h) => {
                    doors[e] = Some(
                        DoorActive::started(
                            su.open_sound,
                            su.close_sound,
                            su.speed,
                            su.wait_time,
                            h,
                            map_dynamic.sectors[i].interval.min,
                        ),
                    );
                },
                None => {
                    problems.push(DoorProblem::NoNeighbours(i));
                    assert(problems@ =~= old(problems)@ + found.push(DoorProblem::NoNeighbours(i)));
                },
            }
        }
        i += 1;
    }
    used
}

/// Handles one use event.
pub fn handle_use(
    world: &mut World,
    map_dynamic: &mut MapDynamic,
    sounds: &mut Vec<(AssetHandle, Entity)>,
    map: &LevelMap,
    map_entity: Entity,
    ev: UseEvent,
    problems: &mut Vec<DoorProblem>,
)
    requires
        old(world).wf(),
        map.wf(),
        old(map_dynamic).wf(*map),
        doors_wf(old(world).door_actives@),
    ensures
        final(world).wf(),
        final(map_dynamic).wf(*map),
        doors_wf(final(world).door_actives@),
        final(world).same_but_doors(*old(world)),
        final(world).map_dynamics@ == old(world).map_dynamics@,
        final(map_dynamic).framed(*old(map_dynamic)),
        scene_of(*final(world), *final(map_dynamic), final(sounds)@) == setting_of(
            *old(world),
            *map,
            map_entity,
        ).after_use(scene_of(*old(world), *old(map_dynamic), old(sounds)@), ev),
        final(problems)@ == old(problems)@ + setting_of(*old(world), *map, map_entity).use_problems(
            scene_of(*old(world), *old(map_dynamic), old(sounds)@),
            ev,
        ),
{
    assert(problems@ =~= old(problems)@ + Seq::<DoorProblem>::empty());
    let ghost setting = setting_of(*world, *map, map_entity);
    let l = ev.linedef_entity.id;
    if l >= world.use_actions.len() {
        return ;
    }
    let li = match world.linedef_refs[l] {
        Some(r) => {
            if r.map_entity == map_entity && r.index < map.linedefs.len() {
                r.index
            } else {
                return ;
            }
        },
        None => {
            return ;
        },
    };
    assert(setting.used_linedef(l as int) == Some(li as int));
    let linedef = &map.linedefs[li];
    assert(map.side_ok(linedef.sidedefs[0]));
    assert(map.side_ok(linedef.sidedefs[1]));
    match world.use_actions[l] {
        Some(UseAction::DoorUse(du)) => {
            match linedef.sidedefs[1] {
                Some(back) => {
                    let si = back.sector_index;
                    let e = map_dynamic.sectors[si].entity.id;
                    if e < world.door_actives.len() {
                        match world.door_actives[e] {
                            Some(door) => {
                                world.door_actives[e] = Some(door.reused());
                            },
                            None => match open_height(map, map_dynamic, si) {
                                Some(h) => {
                                    world.door_actives[e] = Some(
                                        DoorActive::started(
                                            du.open_sound,
                                            du.close_sound,
                                            du.speed,
                                            du.wait_time,
                                            h,
                                            map_dynamic.sectors[si].interval.min,
                                        ),
                                    );
                                },
                                None => {
                                    problems.push(DoorProblem::NoNeighbours(si));
                                    assert(problems@ =~= old(problems)@
                                        + seq![DoorProblem::NoNeighbours(si)]);
                                },
                            },
                        }
                    }
                },
                None => {
                    problems.push(DoorProblem::NoBackSector(li));
                    assert(problems@ =~= old(problems)@ + seq![DoorProblem::NoBackSector(li)]);
                },
            }
        },
        Some(UseAction::DoorSwitchUse(su)) => {
            if world.switch_actives[l].is_some() {
                return ;
            }
            let used = activate_tagged(
                &mut world.door_actives,
                map,
                map_dynamic,
                linedef.sector_tag,
                su,
                problems,
            );
            if used {
                if let Some(front) = linedef.sidedefs[0] {
                    let mut ld: LinedefDynamic = map_dynamic.linedefs[li];
                    if let Some(side) = ld.sidedefs[0] {
                        if let Some((slot, shown, partner)) = find_switch_face(
                            &map.switches,
                            &side.textures,
                        ) {
                            let ghost before = *map_dynamic;
                            let mut textures = side.textures;
                            textures[slot.index()] = TextureType::Normal(partner);
                            let mut sides = ld.sidedefs;
                            sides[0] = Some(SidedefDynamic { textures });
                            ld.sidedefs = sides;
                            map_dynamic.linedefs[li] = ld;
                            sounds.push(
                                (su.switch_sound, map_dynamic.sectors[front.sector_index].entity),
                            );
                            world.switch_actives[l] = Some(
                                SwitchActive {
                                    sound: su.switch_sound,
                                    texture: shown,
                                    texture_slot: slot,
                                    time_left: su.switch_time,
                                },
                            );
                            proof {
                                assert(map_dynamic.faces() =~= before.faces().update(
                                    li as int,
                                    Some(
                                        side.textures@.update(
                                            slot.spec_index(),
                                            TextureType::Normal(partner),
                                        ),
                                    ),
                                ));
                            }
                        }
                    }
                }
            }
        },
        None => {},
    }
}

/// Ticks the door of entity row `i`, if it has one.
pub fn tick_door(
    world: &mut World,
    map_dynamic: &mut MapDynamic,
    sounds: &mut Vec<(AssetHandle, Entity)>,
    map: &LevelMap,
    map_entity: Entity,
    i: usize,
    delta: u64,
)
    requires
        old(world).wf(),
        map.wf(),
        old(map_dynamic).wf(*map),
        doors_wf(old(world).door_actives@),
        colliders_wf(old(world).box_colliders@),
        i < old(world).count(),
    ensures
        final(world).wf(),
        final(map_dynamic).wf(*map),
        doors_wf(final(world).door_actives@),
        final(world).same_but_doors(*old(world)),
        final(world).map_dynamics@ == old(world).map_dynamics@,
        final(map_dynamic).framed(*old(map_dynamic)),
        scene_of(*final(world), *final(map_dynamic), final(sounds)@) == setting_of(
            *old(world),
            *map,
            map_entity,
        ).door_ticked(scene_of(*old(world), *old(map_dynamic), old(sounds)@), i as int, delta),
{
    if let (Some(r), Some(door)) = (world.sector_refs[i], world.door_actives[i]) {
        if r.map_entity == map_entity && r.index < map_dynamic.sectors.len() {
            let ghost before = *map_dynamic;
            let sector = map_dynamic.sectors[r.index];
            let ceiling: i64 = sector.interval.max;
            let blocked = match door.state {
                DoorState::Closing => sector_blocked(
                    map,
                    &world.transforms,
                    &world.box_colliders,
                    r.index,
                    door.closing_target(ceiling, delta),
                ),
                _ => false,
            };
            let mut door = door;
            let t = door.tick(ceiling, delta, blocked);
            map_dynamic.sectors[r.index] = SectorDynamic {
                interval: Interval { min: sector.interval.min, max: t.ceiling },
                ..sector
            };
            if let Some(sound) = t.sound {
                sounds.push((sound, Entity { id: i }));
            }
            world.door_actives[i] = if t.done {
                None
            } else {
                Some(door)
            };
            proof {
                assert(map_dynamic.faces() =~= before.faces());
            }
        }
    }
}

/// Ticks the thrown switch of entity row `i`, if it has one.
pub fn tick_switch(
    world: &mut World,
    map_dynamic: &mut MapDynamic,
    sounds: &mut Vec<(AssetHandle, Entity)>,
    map: &LevelMap,
    map_entity: Entity,
    i: usize,
    delta: u64,
)
    requires
        old(world).wf(),
        map.wf(),
        old(map_dynamic).wf(*map),
        i < old(world).count(),
    ensures
        final(world).wf(),
        final(map_dynamic).wf(*map),
        final(world).door_actives@ == old(world).door_actives@,
        final(world).same_but_doors(*old(world)),
        final(world).map_dynamics@ == old(world).map_dynamics@,
        final(map_dynamic).framed(*old(map_dynamic)),
        scene_of(*final(world), *final(map_dynamic), final(sounds)@) == setting_of(
            *old(world),
            *map,
            map_entity,
        ).switch_ticked(scene_of(*old(world), *old(map_dynamic), old(sounds)@), i as int, delta),
{
    if let (Some(r), Some(switch)) = (world.linedef_refs[i], world.switch_actives[i]) {
        match switch.ticked(delta) {
            Some(later) => {
                world.switch_actives[i] = Some(later);
            },
            None => {
                world.switch_actives[i] = None;
                if r.map_entity == map_entity && r.index < map.linedefs.len() {
                    let li = r.index;
                    let linedef = &map.linedefs[li];
                    assert(map.side_ok(linedef.sidedefs[0]));
                    if let Some(front) = linedef.sidedefs[0] {
                        let mut ld: LinedefDynamic = map_dynamic.linedefs[li];
                        if let Some(side) = ld.sidedefs[0] {
                            let ghost before = *map_dynamic;
                            let mut textures = side.textures;
                            textures[switch.texture_slot.index()] = TextureType::Normal(
                                switch.texture,
                            );
                            let mut sides = ld.sidedefs;
                            sides[0] = Some(SidedefDynamic { textures });
                            ld.sidedefs = sides;
                            map_dynamic.linedefs[li] = ld;
                            sounds.push(
                                (switch.sound, map_dynamic.sectors[front.sector_index].entity),
                            );
                            proof {
                                assert(map_dynamic.faces() =~= before.faces().update(
                                    li as int,
                                    Some(
                                        side.textures@.update(
                                            switch.texture_slot.spec_index(),
                                            TextureType::Normal(switch.texture),
                                        ),
                                    ),
                                ));
                            }
                        }
                    }
                }
            },
        }
    }
}

/// Drives doors and door switches: takes the use events that have come in
/// since its last run, then ticks every active door and every thrown switch.
pub struct DoorUpdateSystem {
    /// How many events of the channel this system has taken.
    pub use_event_reader: usize,
}

impl DoorUpdateSystem {
    pub fn new(use_event_reader: usize) -> (s: DoorUpdateSystem)
        ensures
            s.use_event_reader == use_event_reader,
    {
        DoorUpdateSystem { use_event_reader }
    }

    /// The events that a run takes: those from the reader's position on.
    pub open spec fn unread(self, events: Seq<UseEvent>) -> Seq<UseEvent> {
        if self.use_event_reader <= events.len() {
            events.skip(self.use_event_reader as int)
        } else {
            Seq::empty()
        }
    }

    /// Runs the mechanisms on the live state of one level.
    pub fn run_on(
        &mut self,
        world: &mut World,
        map_dynamic: &mut MapDynamic,
        map: &LevelMap,
        map_entity: Entity,
        events: &Vec<UseEvent>,
        delta: u64,
        sounds: &mut Vec<(AssetHandle, Entity)>,
        problems: &mut Vec<DoorProblem>,
    )
        requires
            old(world).wf(),
            map.wf(),
            old(map_dynamic).wf(*map),
            doors_wf(old(world).door_actives@),
            colliders_wf(old(world).box_colliders@),
        ensures
            final(problems)@ == old(problems)@ + setting_of(
                *old(world),
                *map,
                map_entity,
            ).uses_problems(
                scene_of(*old(world), *old(map_dynamic), old(sounds)@),
                old(self).unread(events@),
            ),
            final(self).use_event_reader == if old(self).use_event_reader <= events.len() {
                events.len()
            } else {
                old(self).use_event_reader
            },
            final(world).wf(),
            final(map_dynamic).wf(*map),
            doors_wf(final(world).door_actives@),
            final(world).same_but_doors(*old(world)),
            final(world).map_dynamics@ == old(world).map_dynamics@,
            final(map_dynamic).framed(*old(map_dynamic)),
            scene_of(*final(world), *final(map_dynamic), final(sounds)@) == setting_of(
                *old(world),
                *map,
                map_entity,
            ).after_run(
                scene_of(*old(world), *old(map_dynamic), old(sounds)@),
                old(self).unread(events@),
                delta,
            ),
    {
        let ghost setting = setting_of(*world, *map, map_entity);
        let ghost st0 = scene_of(*world, *map_dynamic, sounds@);
        let ghost unread = self.unread(events@);
        let start = self.use_event_reader;
        assert(problems@ =~= old(problems)@ + Seq::<DoorProblem>::empty());
        if start <= events.len() {
            let mut k: usize = start;
            assert(unread.take(0) =~= Seq::<UseEvent>::empty());
            while k < events.len()
                invariant
                    start <= k <= events.len(),
                    unread == events@.skip(start as int),
                    problems@ == old(problems)@ + setting.uses_problems(
                        st0,
                        unread.take(k - start),
                    ),
                    world.wf(),
                    map.wf(),
                    map_dynamic.wf(*map),
                    doors_wf(world.door_actives@),
                    world.same_but_doors(*old(world)),
                    world.map_dynamics@ == old(world).map_dynamics@,
                    map_dynamic.framed(*old(map_dynamic)),
                    setting == setting_of(*world, *map, map_entity),
                    scene_of(*world, *map_dynamic, sounds@) == setting.after_uses(
                        st0,
                        unread.take(k - start),
                    ),
                decreases events.len() - k,
            {
                proof {
                    let now = unread.take(k - start + 1);
                    assert(now.drop_last() =~= unread.take(k - start));
                    assert(now.last() == events@[k as int]);
                }
                let ghost noted = setting.uses_problems(st0, unread.take(k - start));
                let ghost here = scene_of(*world, *map_dynamic, sounds@);
                handle_use(world, map_dynamic, sounds, map, map_entity, events[k], problems);
                assert(problems@ =~= old(problems)@ + (noted + setting.use_problems(
                    here,
                    events@[k as int],
                )));
                k += 1;
            }
            assert(unread.take(k - start) =~= unread);
            self.use_event_reader = events.len();
        }
        let ghost st1 = scene_of(*world, *map_dynamic, sounds@);
        assert(st1 == setting.after_uses(st0, unread));
        let n = world.len();
        let mut i: usize = 0;
        while i < n
            invariant
                i <= n,
                n == world.count(),
                world.wf(),
                map.wf(),
                map_dynamic.wf(*map),
                doors_wf(world.door_actives@),
                colliders_wf(world.box_colliders@),
                world.same_but_doors(*old(world)),
                world.map_dynamics@ == old(world).map_dynamics@,
                map_dynamic.framed(*old(map_dynamic)),
                setting == setting_of(*world, *map, map_entity),
                scene_of(*world, *map_dynamic, sounds@) == setting.doors_ticked(
                    st1,
                    i as nat,
                    delta,
                ),
            decreases n - i,
        {
            tick_door(world, map_dynamic, sounds, map, map_entity, i, delta);
            i += 1;
        }
        let ghost st2 = scene_of(*world, *map_dynamic, sounds@);
        let mut j: usize = 0;
        while j < n
            invariant
                j <= n,
                n == world.count(),
                world.wf(),
                map.wf(),
                map_dynamic.wf(*map),
                doors_wf(world.door_actives@),
                world.same_but_doors(*old(world)),
                world.map_dynamics@ == old(world).map_dynamics@,
                map_dynamic.framed(*old(map_dynamic)),
                setting == setting_of(*world, *map, map_entity),
                scene_of(*world, *map_dynamic, sounds@) == setting.switches_ticked(
                    st2,
                    j as nat,
                    delta,
                ),
            decreases n - j,
        {
            tick_switch(world, map_dynamic, sounds, map, map_entity, j, delta);
            j += 1;
        }
    }
}

impl DoorUpdateSystem {
    /// One run of the mechanisms on the world's level: the use events that
    /// came in since the last run are taken in order, then every active door
    /// ticks, then every thrown switch. Doors that a use could not open for
    /// want of a sector behind the linedef or of a neighbour are noted in
    /// `problems`. Without a spawned level nothing happens and no event is
    /// taken.
    pub fn run_now(
        &mut self,
        world: &mut World,
        map: &LevelMap,
        events: &Vec<UseEvent>,
        delta: u64,
        sounds: &mut Vec<(AssetHandle, Entity)>,
        problems: &mut Vec<DoorProblem>,
    )
        requires
            old(world).wf(),
            map.wf(),
            doors_wf(old(world).door_actives@),
            colliders_wf(old(world).box_colliders@),
            old(world).spec_map_entity() matches Some(m) ==> old(world).map_dynamics[m]->0.wf(*map),
        ensures
            final(world).wf(),
            doors_wf(final(world).door_actives@),
            final(world).same_but_doors(*old(world)),
            match old(world).spec_map_entity() {
                None => {
                    &&& final(self).use_event_reader == old(self).use_event_reader
                    &&& final(world).door_actives@ == old(world).door_actives@
                    &&& final(world).switch_actives@ == old(world).switch_actives@
                    &&& final(world).map_dynamics@ == old(world).map_dynamics@
                    &&& final(sounds)@ == old(sounds)@
                    &&& final(problems)@ == old(problems)@
                },
                Some(m) => {
                    &&& final(self).use_event_reader == if old(self).use_event_reader
                        <= events.len() {
                        events.len()
                    } else {
                        old(self).use_event_reader
                    }
                    &&& final(world).map_dynamics[m] matches Some(after)
                    &&& final(world).map_dynamics@ == old(world).map_dynamics@.update(
                        m,
                        Some(after),
                    )
                    &&& after.wf(*map)
                    &&& after.framed(old(world).map_dynamics[m]->0)
                    &&& scene_of(*final(world), after, final(sounds)@) == setting_of(
                        *old(world),
                        *map,
                        Entity { id: m as usize },
                    ).after_run(
                        scene_of(*old(world), old(world).map_dynamics[m]->0, old(sounds)@),
                        old(self).unread(events@),
                        delta,
                    )
                    &&& final(problems)@ == old(problems)@ + setting_of(
                        *old(world),
                        *map,
                        Entity { id: m as usize },
                    ).uses_problems(
                        scene_of(*old(world), old(world).map_dynamics[m]->0, old(sounds)@),
                        old(self).unread(events@),
                    )
                },
            },
    {
        if let Some(e) = world.map_entity() {
            let mut slot: Option<MapDynamic> = None;
            std::mem::swap(&mut slot, &mut world.map_dynamics[e.id]);
            if let Some(mut map_dynamic) = slot {
                let ghost taken = *world;
                assert(setting_of(taken, *map, e) == setting_of(*old(world), *map, e));
                assert(scene_of(taken, map_dynamic, sounds@) == scene_of(
                    *old(world),
                    map_dynamic,
                    sounds@,
                ));
                self.run_on(world, &mut map_dynamic, map, e, events, delta, sounds, problems);
                assert(scene_of(*world, map_dynamic, sounds@).doors == world.door_actives@);
                world.map_dynamics[e.id] = Some(map_dynamic);
                assert(world.map_dynamics@ =~= old(world).map_dynamics@.update(
                    e.id as int,
                    Some(map_dynamic),
                ));
            }
        }
    }
}

impl World {
    /// Whether the heights of every active door are coordinates.
    pub fn doors_valid(&self) -> (b: bool)
        ensures
            b == doors_wf(self.door_actives@),
    {
        let mut i: usize = 0;
        while i < self.door_actives.len()
            invariant
                i <= self.door_actives.len(),
                forall|k: int|
                    0 <= k < i ==> ((#[trigger] self.door_actives@[k]) matches Some(d) ==> d.wf()),
            decreases self.door_actives.len() - i,
        {
            if let Some(d) = &self.door_actives[i] {
                if !d.is_valid() {
                    return false;
                }
            }
            i += 1;
        }
        true
    }
}

} // verus!
