use vstd::prelude::*;
use crate::fixed::{in_range, lemma_mul_bound, max, min, mul_wide, ONE};
use crate::geometry::{
    dot2, fixed_ratio, lemma_mul_in_range, ratio, Interval, Vec2, Vec3, AABB2, AABB3,
};
use crate::components::{Transform, Velocity};
use crate::door::{distance_moved, travel};
use crate::fixed::{clamp_coord, div_away, div_round_away, lemma_div_floor_bounds, saturate};
use crate::geometry::dot3;
use crate::world::{colliders_wf, velocities_wf, World};
use crate::geometry::{cross2, Line2};
use crate::map::{LevelMap, Linedef, MapDynamic, Seg, Subsector};

verus! {

/// The categories of mover that a collidable volume blocks.
#[derive(Clone, Copy, Debug, PartialEq, Eq, Structural)]
pub struct SolidMask {
    pub bits: u16,
}

impl SolidMask {
    /// No category at all.
    pub fn empty() -> (m: SolidMask)
        ensures
            m.bits == 0,
    {
        SolidMask { bits: 0 }
    }

    /// Blocks everything that is not a monster.
    pub fn non_monster() -> (m: SolidMask)
        ensures
            m.bits == 1,
    {
        SolidMask { bits: 1 }
    }

    /// Blocks monsters.
    pub fn monster() -> (m: SolidMask)
        ensures
            m.bits == 2,
    {
        SolidMask { bits: 2 }
    }

    /// Every category.
    pub fn all() -> (m: SolidMask)
        ensures
            m.bits == 3,
    {
        SolidMask { bits: 3 }
    }

    pub open spec fn spec_intersects(self, other: SolidMask) -> bool {
        (self.bits & other.bits) != 0
    }

    /// Whether the two masks share a category.
    pub fn intersects(&self, other: SolidMask) -> (b: bool)
        ensures
            b == self.spec_intersects(other),
    {
        (self.bits & other.bits) != 0
    }
}

/// An upright cylinder, treated as an axis-aligned box in sweep tests.
#[derive(Clone, Copy, Debug, PartialEq, Eq, Structural)]
pub struct BoxCollider {
    pub height: i64,
    pub radius: i64,
    pub solid_mask: SolidMask,
}

impl BoxCollider {
    /// Neither dimension is negative, and both are coordinates.
    pub open spec fn wf(self) -> bool {
        0 <= self.height && in_range(self.height as int) && 0 <= self.radius && in_range(
            self.radius as int,
        )
    }

    pub fn is_valid(&self) -> (b: bool)
        ensures
            b == self.wf(),
    {
        0 <= self.height && self.height <= crate::fixed::LIMIT && 0 <= self.radius && self.radius
            <= crate::fixed::LIMIT
    }
}

/// Where along a step something is hit, which way the surface faces, and
/// what kinds of mover it stops.
#[derive(Clone, Copy, Debug, PartialEq, Eq, Structural)]
pub struct Intersect {
    /// Fraction of the step at which the hit occurs, scaled by `ONE`.
    pub fraction: i64,
    /// Unit normal of the surface hit, scaled by `ONE`.
    pub normal: Vec3,
    pub solid_mask: SolidMask,
}

/// A time span that never ends and never began: no constraint.
pub const ALWAYS_FROM: i128 = -0x1_0000_0000_0000_0000_0000_0000;

pub const ALWAYS_TO: i128 = 0x1_0000_0000_0000_0000_0000_0000;

/// The span of time fractions, scaled by `ONE`, during which a range moving
/// by `step` overlaps the range `other`. With no movement the span is
/// everything when the ranges overlap or touch, and nothing otherwise.
pub open spec fn slab(entity: Interval, other: Interval, step: int) -> (int, int) {
    if step == 0 {
        if entity.spec_overlaps(other) {
            (ALWAYS_FROM as int, ALWAYS_TO as int)
        } else {
            (ALWAYS_TO as int, ALWAYS_FROM as int)
        }
    } else {
        let a = ratio(other.min - entity.max, step);
        let b = ratio(other.max - entity.min, step);
        (min(a, b), max(a, b))
    }
}

pub fn slab_of(entity: Interval, other: Interval, step: i64) -> (r: (i128, i128))
    requires
        entity.wf(),
        other.wf(),
        in_range(step as int),
    ensures
        (r.0 as int, r.1 as int) == slab(entity, other, step as int),
{
    if step == 0 {
        if entity.overlaps(other) {
            (ALWAYS_FROM, ALWAYS_TO)
        } else {
            (ALWAYS_TO, ALWAYS_FROM)
        }
    } else {
        let a: i128 = fixed_ratio((other.min - entity.max) as i128, step as i128);
        let b: i128 = fixed_ratio((other.max - entity.min) as i128, step as i128);
        if a <= b {
            (a, b)
        } else {
            (b, a)
        }
    }
}

/// The unit vector along axis `axis` (0, 1 or 2) that faces against a step
/// whose component on that axis is `step`.
pub open spec fn facing(axis: int, step: int) -> Vec3 {
    let n: i64 = if step > 0 {
        (-ONE) as i64
    } else {
        ONE
    };
    if axis == 0 {
        Vec3 { x: n, y: 0, z: 0 }
    } else if axis == 1 {
        Vec3 { x: 0, y: n, z: 0 }
    } else {
        Vec3 { x: 0, y: 0, z: n }
    }
}

pub fn facing_normal(axis: usize, step: i64) -> (v: Vec3)
    ensures
        v == facing(axis as int, step as int),
        v.is_direction(),
{
    let n: i64 = if step > 0 {
        -ONE
    } else {
        ONE
    };
    if axis == 0 {
        Vec3 { x: n, y: 0, z: 0 }
    } else if axis == 1 {
        Vec3 { x: 0, y: n, z: 0 }
    } else {
        Vec3 { x: 0, y: 0, z: n }
    }
}

/// The box that a collider standing at `position` fills.
pub open spec fn collider_box(c: BoxCollider, position: Vec3) -> AABB3 {
    AABB3::spec_from_radius_height(c.radius, c.height).spec_offset(position)
}

pub fn box_of(c: &BoxCollider, position: Vec3) -> (b: AABB3)
    requires
        c.wf(),
    ensures
        b == collider_box(*c, position),
        b.wf(),
{
    AABB3::from_radius_height(c.radius, c.height).offset(position)
}

/// The hit of a box moving by `step` on the box `other`, which stops the
/// categories `mask`: none when the two are the same box; else the three
/// per-axis spans are intersected, and there is a hit when the result is not
/// empty and begins within the step. The hit is at that beginning, and its
/// normal is along the first axis whose span begins there.
pub open spec fn spec_trace_boxes(entity: AABB3, step: Vec3, other: AABB3, mask: SolidMask)
    -> Option<Intersect> {
    let sx = slab(entity.x, other.x, step.x as int);
    let sy = slab(entity.y, other.y, step.y as int);
    let sz = slab(entity.z, other.z, step.z as int);
    let from = max(max(sx.0, sy.0), sz.0);
    let to = min(min(sx.1, sy.1), sz.1);
    if entity == other {
        None
    } else if from > to || from < 0 || from > ONE {
        None
    } else {
        Some(
            Intersect {
                fraction: from as i64,
                normal: if from == sx.0 {
                    facing(0, step.x as int)
                } else if from == sy.0 {
                    facing(1, step.y as int)
                } else {
                    facing(2, step.z as int)
                },
                solid_mask: mask,
            },
        )
    }
}

pub fn trace_boxes(entity: &AABB3, step: Vec3, other: &AABB3, mask: SolidMask) -> (r: Option<
    Intersect,
>)
    requires
        entity.wf(),
        other.wf(),
        step.wf(),
    ensures
        r == spec_trace_boxes(*entity, step, *other, mask),
        r matches Some(i) ==> 0 <= i.fraction <= ONE && i.normal.is_direction(),
{
    if *entity == *other {
        return None;
    }
    let sx = slab_of(entity.x, other.x, step.x);
    let sy = slab_of(entity.y, other.y, step.y);
    let sz = slab_of(entity.z, other.z, step.z);
    let mxy: i128 = if sx.0 >= sy.0 {
        sx.0
    } else {
        sy.0
    };
    let from: i128 = if mxy >= sz.0 {
        mxy
    } else {
        sz.0
    };
    let nxy: i128 = if sx.1 <= sy.1 {
        sx.1
    } else {
        sy.1
    };
    let to: i128 = if nxy <= sz.1 {
        nxy
    } else {
        sz.1
    };
    if from > to || from < 0 || from > ONE as i128 {
        return None;
    }
    let normal = if from == sx.0 {
        facing_normal(0, step.x)
    } else if from == sy.0 {
        facing_normal(1, step.y)
    } else {
        facing_normal(2, step.z)
    };
    Some(Intersect { fraction: from as i64, normal, solid_mask: mask })
}

/// The least of the four corners' positions along `normal`.
pub open spec fn low_corner(b: AABB2, normal: Vec2) -> int {
    let c = b.spec_corners();
    min(min(dot2(c[0], normal), dot2(c[1], normal)), min(dot2(c[2], normal), dot2(c[3], normal)))
}

/// The greatest of the four corners' positions along `normal`.
pub open spec fn high_corner(b: AABB2, normal: Vec2) -> int {
    let c = b.spec_corners();
    max(max(dot2(c[0], normal), dot2(c[1], normal)), max(dot2(c[2], normal), dot2(c[3], normal)))
}

/// Along the segment's normal, the rectangle and the subsector overlap.
pub open spec fn seg_overlaps(b: AABB2, seg: Seg) -> bool {
    low_corner(b, seg.normal) <= seg.interval.max * ONE && seg.interval.min * ONE <= high_corner(
        b,
        seg.normal,
    )
}

/// No axis separates the rectangle from the subsector: their bounding
/// rectangles overlap, and so do their extents along every segment's normal.
pub open spec fn footprint_overlaps(b: AABB2, sub: Subsector) -> bool {
    &&& b.spec_overlaps(sub.bbox)
    &&& forall|i: int| 0 <= i < sub.segs.len() ==> seg_overlaps(b, #[trigger] sub.segs[i])
}

/// The rectangle overlaps some subsector of the sector.
pub open spec fn over_sector(map: LevelMap, sector_index: int, b: AABB2) -> bool {
    exists|j: int|
        0 <= j < map.sectors[sector_index].subsectors.len() && footprint_overlaps(
            b,
            map.subsectors[(#[trigger] map.sectors[sector_index].subsectors[j]) as int],
        )
}

pub fn seg_overlap(b: &AABB2, seg: &Seg) -> (r: bool)
    requires
        b.wf(),
        seg.wf(),
    ensures
        r == seg_overlaps(*b, *seg),
{
    let c = b.corners();
    let d0: i128 = c[0].dot(seg.normal);
    let d1: i128 = c[1].dot(seg.normal);
    let d2: i128 = c[2].dot(seg.normal);
    let d3: i128 = c[3].dot(seg.normal);
    let l01: i128 = if d0 <= d1 {
        d0
    } else {
        d1
    };
    let l23: i128 = if d2 <= d3 {
        d2
    } else {
        d3
    };
    let low: i128 = if l01 <= l23 {
        l01
    } else {
        l23
    };
    let h01: i128 = if d0 >= d1 {
        d0
    } else {
        d1
    };
    let h23: i128 = if d2 >= d3 {
        d2
    } else {
        d3
    };
    let high: i128 = if h01 >= h23 {
        h01
    } else {
        h23
    };
    low <= mul_wide(seg.interval.max, ONE) && mul_wide(seg.interval.min, ONE) <= high
}

pub fn footprint_overlap(b: &AABB2, sub: &Subsector) -> (r: bool)
    requires
        b.wf(),
        sub.wf(),
    ensures
        r == footprint_overlaps(*b, *sub),
{
    if !b.overlaps(&sub.bbox) {
        return false;
    }
    let mut i: usize = 0;
    while i < sub.segs.len()
        invariant
            i <= sub.segs.len(),
            b.wf(),
            sub.wf(),
            forall|k: int| 0 <= k < i ==> seg_overlaps(*b, #[trigger] sub.segs[k]),
        decreases sub.segs.len() - i,
    {
        if !seg_overlap(b, &sub.segs[i]) {
            return false;
        }
        i += 1;
    }
    true
}

pub fn sector_overlap(map: &LevelMap, sector_index: usize, b: &AABB2) -> (r: bool)
    requires
        map.wf(),
        sector_index < map.sectors.len(),
        b.wf(),
    ensures
        r == over_sector(*map, sector_index as int, *b),
{
    let sector = &map.sectors[sector_index];
    assert(map.sector_ok(*sector));
    let mut j: usize = 0;
    while j < sector.subsectors.len()
        invariant
            j <= sector.subsectors.len(),
            map.wf(),
            b.wf(),
            sector_index < map.sectors.len(),
            *sector == map.sectors[sector_index as int],
            map.sector_ok(*sector),
            forall|k: int|
                0 <= k < j ==> !footprint_overlaps(
                    *b,
                    map.subsectors[(#[trigger] sector.subsectors[k]) as int],
                ),
        decreases sector.subsectors.len() - j,
    {
        let k = sector.subsectors[j];
        if footprint_overlap(b, &map.subsectors[k]) {
            return true;
        }
        j += 1;
    }
    false
}

/// The hit of a box moving by `step` on the floor or the ceiling of a
/// sector whose heights are `heights`: against the ceiling when moving up,
/// the floor when moving down, at the fraction of the step at which the box
/// reaches it. There is a hit only if that fraction lies within the step and
/// the box, moved that far, stands over the sector.
pub open spec fn spec_trace_sector(
    map: LevelMap,
    heights: Interval,
    sector_index: int,
    entity: AABB3,
    step: Vec3,
) -> Option<Intersect> {
    let fraction = if step.z > 0 {
        ratio(heights.max - entity.z.max, step.z as int)
    } else {
        ratio(heights.min - entity.z.min, step.z as int)
    };
    if step.z == 0 || fraction < 0 || fraction > ONE {
        None
    } else if over_sector(map, sector_index, entity.spec_offset(step.spec_scale(fraction)).plan()) {
        Some(
            Intersect {
                fraction: fraction as i64,
                normal: facing(2, step.z as int),
                solid_mask: SolidMask { bits: 3 },
            },
        )
    } else {
        None
    }
}

/// The direction a wall pushes back a mover heading along `step`: the
/// wall's own normal, turned round when the mover heads along it.
pub open spec fn wall_normal(linedef: Linedef, step: Vec2) -> Vec3 {
    if dot2(step, linedef.normal) > 0 {
        Vec3 { x: (-linedef.normal.x) as i64, y: (-linedef.normal.y) as i64, z: 0 }
    } else {
        Vec3 { x: linedef.normal.x, y: linedef.normal.y, z: 0 }
    }
}

/// Edge `i` of the rectangle, from corner `i` to the next.
pub open spec fn edge(b: AABB2, i: int) -> Line2 {
    let c = b.spec_corners();
    Line2 { point: c[i], dir: c[(i + 1) % 4].spec_minus(c[i]) }
}

/// A crossing of two lines counts as a hit when it lies ahead of the mover
/// and within the length of the thing hit.
pub open spec fn valid_hit(crossing: Option<(int, int)>, normal: Vec3) -> Option<(int, Vec3)> {
    match crossing {
        Some((f, g)) => if f >= 0 && 0 <= g <= ONE {
            Some((f, normal))
        } else {
            None
        },
        None => None,
    }
}

/// Where corner `i` of the box, moving by `step`, runs into the wall.
pub open spec fn corner_hit(b: AABB2, step: Vec2, linedef: Linedef, i: int) -> Option<(int, Vec3)> {
    valid_hit(
        Line2 { point: b.spec_corners()[i], dir: step }.spec_intersect(linedef.line),
        wall_normal(linedef, step),
    )
}

/// Where edge `i` of the box, moving by `step`, runs into `vertex`, an end
/// of the wall: the wall pushes back along its own normal there too.
pub open spec fn vertex_hit(b: AABB2, step: Vec2, linedef: Linedef, vertex: Vec2, i: int) -> Option<
    (int, Vec3),
> {
    valid_hit(
        Line2 { point: vertex, dir: step.spec_neg() }.spec_intersect(edge(b, i)),
        wall_normal(linedef, step),
    )
}

/// Every way the box can run into the wall, in the order in which they are
/// tried: for each corner in turn, the corner against the wall, then the
/// edge that starts at the corner against each end of the wall.
pub open spec fn wall_hits(b: AABB2, step: Vec2, linedef: Linedef) -> Seq<Option<(int, Vec3)>> {
    Seq::new(
        12,
        |k: int|
            if k % 3 == 0 {
                corner_hit(b, step, linedef, k / 3)
            } else if k % 3 == 1 {
                vertex_hit(b, step, linedef, linedef.line.point, k / 3)
            } else {
                vertex_hit(b, step, linedef, linedef.line.end(), k / 3)
            },
    )
}

/// `hit` if it comes before `before`, or no later than the end of the step
/// when there is no `before`; else `before`.
pub open spec fn better(before: Option<(int, Vec3)>, hit: Option<(int, Vec3)>) -> Option<
    (int, Vec3),
> {
    match hit {
        Some((f, n)) => match before {
            Some((b, _)) => if f < b {
                hit
            } else {
                before
            },
            None => if f <= ONE {
                hit
            } else {
                before
            },
        },
        None => before,
    }
}

/// The earliest of the hits that come no later than the end of the step;
/// of two equally early ones, the one tried first.
pub open spec fn earliest(hits: Seq<Option<(int, Vec3)>>) -> Option<(int, Vec3)>
    decreases hits.len(),
{
    if hits.len() == 0 {
        None
    } else {
        better(earliest(hits.drop_last()), hits.last())
    }
}

/// The range of heights open on both sides of a two-sided wall.
pub open spec fn opening(map_dynamic: MapDynamic, linedef: Linedef) -> Option<Interval> {
    match (linedef.sidedefs[0], linedef.sidedefs[1]) {
        (Some(front), Some(back)) => Some(
            map_dynamic.sectors[front.sector_index as int].interval.spec_intersection(
                map_dynamic.sectors[back.sector_index as int].interval,
            ),
        ),
        _ => None,
    }
}

/// The hit of a box moving by `step` on a wall: none unless the rectangle
/// swept by the box overlaps the wall's; else the earliest of `wall_hits`.
/// The wall stops every category, unless it has two sides and the box, moved
/// up to the hit, fits in the opening between them: then it stops the
/// categories of its own mask.
pub open spec fn spec_trace_linedef(
    map_dynamic: MapDynamic,
    linedef: Linedef,
    entity: AABB3,
    step: Vec3,
) -> Option<Intersect> {
    let b = entity.plan();
    let swept = b.spec_union(b.spec_offset(step.xy()));
    if !swept.spec_overlaps(linedef.bbox) {
        None
    } else {
        match earliest(wall_hits(b, step.xy(), linedef)) {
            None => None,
            Some((f, n)) => {
                let end_z = entity.z.spec_offset(crate::geometry::scale_by(step.z as int, f));
                Some(
                    Intersect {
                        fraction: f as i64,
                        normal: n,
                        solid_mask: match opening(map_dynamic, linedef) {
                            Some(gap) => if end_z.spec_is_inside(gap) {
                                linedef.solid_mask
                            } else {
                                SolidMask { bits: 3 }
                            },
                            None => SolidMask { bits: 3 },
                        },
                    },
                )
            },
        }
    }
}

/// Every hit that `earliest` returns lies within the step.
pub proof fn lemma_earliest_bounds(hits: Seq<Option<(int, Vec3)>>)
    requires
        forall|k: int| 0 <= k < hits.len() ==> ((#[trigger] hits[k]) matches Some((f, _)) ==> f >= 0),
    ensures
        earliest(hits) matches Some((f, _)) ==> 0 <= f <= ONE,
    decreases hits.len(),
{
    if hits.len() > 0 {
        lemma_earliest_bounds(hits.drop_last());
        assert(hits.last() == hits[hits.len() - 1]);
    }
}

/// `earliest` is the least of the hits within the step, and the
/// first of them in order that is so early.
pub proof fn lemma_earliest_is_least(hits: Seq<Option<(int, Vec3)>>)
    ensures
        earliest(hits) is None <==> forall|k: int|
            0 <= k < hits.len() ==> ((#[trigger] hits[k]) matches Some((f, _)) ==> f > ONE),
        earliest(hits) matches Some((f, n)) ==> {
            &&& f <= ONE
            &&& forall|k: int|
                0 <= k < hits.len() ==> ((#[trigger] hits[k]) matches Some((g, _)) ==> f <= g)
            &&& exists|k: int|
                0 <= k < hits.len() && (#[trigger] hits[k]) == Some((f, n)) && forall|j: int|
                    0 <= j < k ==> ((#[trigger] hits[j]) matches Some((g, _)) ==> f < g)
        },
    decreases hits.len(),
{
    if hits.len() > 0 {
        let init = hits.drop_last();
        lemma_earliest_is_least(init);
        let last = hits.len() - 1;
        assert(forall|k: int| 0 <= k < init.len() ==> init[k] == hits[k]);
        match earliest(hits) {
            None => {
                assert forall|k: int| 0 <= k < hits.len() implies ((#[trigger] hits[k]) matches Some(
                    (f, _),
) ==> f > ONE) by {
                    if k < last {
                        assert(init[k] == hits[k]);
                    }
                }
            },
            Some((f, n)) => {
                assert forall|k: int| 0 <= k < hits.len() implies ((#[trigger] hits[k]) matches Some(
                    (g, _),
                ) ==> f <= g) by {
                    if k < last {
                        assert(init[k] == hits[k]);
                    }
                }
                if earliest(hits) == earliest(init) {
                    let k = choose|k: int|
                        0 <= k < init.len() && (#[trigger] init[k]) == Some((f, n)) && forall|j: int|

                            0 <= j < k ==> ((#[trigger] init[j]) matches Some((g, _)) ==> f < g);
                    assert(hits[k] == Some((f, n)));
                    assert forall|j: int| 0 <= j < k implies ((#[trigger] hits[j]) matches Some(
                        (g, _),
                    ) ==> f < g) by {
                        assert(init[j] == hits[j]);
                    }
                } else {
                    assert(hits[last] == Some((f, n)));
                    assert forall|j: int| 0 <= j < last implies ((#[trigger] hits[j]) matches Some(
                        (g, _),
                    ) ==> f < g) by {
                        assert(init[j] == hits[j]);
                    }
                }
            },
        }
        if forall|k: int|
            0 <= k < hits.len() ==> ((#[trigger] hits[k]) matches Some((f, _)) ==> f > ONE) {
            assert forall|k: int| 0 <= k < init.len() implies ((#[trigger] init[k]) matches Some(
                (f, _),
) ==> f > ONE) by {
                assert(init[k] == hits[k]);
            }
            assert(hits.last() == hits[last]);
        }
    }
}

/// `hit` if it stops one of the categories of `mask` and comes before
/// `before`, or no later than the end of the step when there is no `before`;
/// else `before`.
pub open spec fn nearer(before: Option<Intersect>, hit: Option<Intersect>, mask: SolidMask)
    -> Option<Intersect> {
    match hit {
        Some(h) => if mask.spec_intersects(h.solid_mask) && (match before {
            Some(b) => h.fraction < b.fraction,
            None => h.fraction <= ONE,
        }) {
            Some(h)
        } else {
            before
        },
        None => before,
    }
}

/// The earliest of the hits that stop a category of `mask` and come no later
/// than the end of the step; of two equally early ones, the one tried first.
pub open spec fn nearest(hits: Seq<Option<Intersect>>, mask: SolidMask) -> Option<Intersect>
    decreases hits.len(),
{
    if hits.len() == 0 {
        None
    } else {
        nearer(nearest(hits.drop_last(), mask), hits.last(), mask)
    }
}

pub open spec fn lift(best: Option<(i64, Vec3)>) -> Option<(int, Vec3)> {
    match best {
        Some((f, n)) => Some((f as int, n)),
        None => None,
    }
}

/// Takes `crossing` as the best hit so far if it is a valid hit and earlier.
pub fn consider(best: &mut Option<(i64, Vec3)>, crossing: Option<(i128, i128)>, normal: Vec3)
    requires
        *old(best) matches Some((f, n)) ==> 0 <= f <= ONE && n.is_direction(),
        normal.is_direction(),
    ensures
        lift(*final(best)) == better(
            lift(*old(best)),
            valid_hit(
                match crossing {
                    Some((f, g)) => Some((f as int, g as int)),
                    None => None,
                },
                normal,
            ),
        ),
        *final(best) matches Some((f, n)) ==> 0 <= f <= ONE && n.is_direction(),
{
    if let Some((f, g)) = crossing {
        let sooner = match *best {
            Some((b, _)) => f < b as i128,
            None => f <= ONE as i128,
        };
        if f >= 0 && sooner && g >= 0 && g <= ONE as i128 {
            *best = Some((f as i64, normal));
        }
    }
}

pub fn wall_normal_of(linedef: &Linedef, step: Vec2) -> (v: Vec3)
    requires
        linedef.wf(),
        step.wf(),
    ensures
        v == wall_normal(*linedef, step),
        v.is_direction(),
{
    proof {
        let x = linedef.normal.x as int;
        let y = linedef.normal.y as int;
        assert((-x) * (-x) == x * x && (-y) * (-y) == y * y) by (nonlinear_arith);
    }
    if step.dot(linedef.normal) > 0 {
        Vec3 { x: -linedef.normal.x, y: -linedef.normal.y, z: 0 }
    } else {
        Vec3 { x: linedef.normal.x, y: linedef.normal.y, z: 0 }
    }
}

/// Tries corner `i` of the box against the wall, then the edge that starts
/// at that corner against each end of the wall.
pub fn probe_corner(
    best: &mut Option<(i64, Vec3)>,
    b: &AABB2,
    step: Vec2,
    linedef: &Linedef,
    wall: Vec3,
    i: usize,
)
    requires
        i < 4,
        b.wf(),
        step.wf(),
        linedef.wf(),
        wall == wall_normal(*linedef, step),
        wall.is_direction(),
        *old(best) matches Some((f, n)) ==> 0 <= f <= ONE && n.is_direction(),
    ensures
        lift(*final(best)) == better(
            better(
                better(
                    lift(*old(best)),
                    valid_hit(
                        Line2 { point: b.spec_corners()[i as int], dir: step }.spec_intersect(
                            linedef.line,
                        ),
                        wall,
                    ),
                ),
                vertex_hit(*b, step, *linedef, linedef.line.point, i as int),
            ),
            vertex_hit(*b, step, *linedef, linedef.line.end(), i as int),
        ),
        *final(best) matches Some((f, n)) ==> 0 <= f <= ONE && n.is_direction(),
{
    let corners = b.corners();
    let corner = corners[i];
    let next = corners[(i + 1) % 4];
    let back = step.neg();
    let end = Vec2 {
        x: linedef.line.point.x + linedef.line.dir.x,
        y: linedef.line.point.y + linedef.line.dir.y,
    };
    let c0 = Line2 { point: corner, dir: step }.intersect(&linedef.line);
    consider(best, c0, wall);
    let side = Line2 { point: corner, dir: next.minus(corner) };
    assert(side == edge(*b, i as int));
    let c1 = Line2 { point: linedef.line.point, dir: back }.intersect(&side);
    consider(best, c1, wall);
    let c2 = Line2 { point: end, dir: back }.intersect(&side);
    consider(best, c2, wall);
}

/// Everything a moving box can run into, as plain values: the level, its
/// live heights, and each entity's place and collider, in creation order.
pub struct Scene {
    pub map: LevelMap,
    pub map_dynamic: MapDynamic,
    pub transforms: Seq<Option<Transform>>,
    pub box_colliders: Seq<Option<BoxCollider>>,
}

impl Scene {
    pub open spec fn wf(self) -> bool {
        &&& self.map.wf()
        &&& self.map_dynamic.wf(self.map)
        &&& self.transforms.len() == self.box_colliders.len()
        &&& colliders_wf(self.box_colliders)
    }

    /// What the box hits on each wall, wall by wall.
    pub open spec fn linedef_hits(self, entity: AABB3, step: Vec3) -> Seq<Option<Intersect>> {
        Seq::new(
            self.map.linedefs.len() as nat,
            |i: int| spec_trace_linedef(self.map_dynamic, self.map.linedefs[i], entity, step),
        )
    }

    /// What the box hits on each sector's floor or ceiling, sector by sector.
    pub open spec fn sector_hits(self, entity: AABB3, step: Vec3) -> Seq<Option<Intersect>> {
        Seq::new(
            self.map.sectors.len() as nat,
            |i: int|
                spec_trace_sector(self.map, self.map_dynamic.sectors[i].interval, i, entity, step),
        )
    }

    /// What the box hits on the entity in row `i`, if that row holds a
    /// collider with a place.
    pub open spec fn entity_hit(self, i: int, entity: AABB3, step: Vec3) -> Option<Intersect> {
        match (self.transforms[i], self.box_colliders[i]) {
            (Some(t), Some(c)) => spec_trace_boxes(
                entity,
                step,
                collider_box(c, t.position),
                c.solid_mask,
            ),
            _ => None,
        }
    }

    /// What the box hits on each entity, in creation order.
    pub open spec fn entity_hits(self, entity: AABB3, step: Vec3) -> Seq<Option<Intersect>> {
        Seq::new(self.transforms.len(), |i: int| self.entity_hit(i, entity, step))
    }

    /// Every candidate hit in the order in which they are compared: the
    /// walls if the step has a horizontal part, the sectors if it has a
    /// vertical part, then the entities.
    pub open spec fn all_hits(self, entity: AABB3, step: Vec3) -> Seq<Option<Intersect>> {
        (if step.x != 0 || step.y != 0 {
            self.linedef_hits(entity, step)
        } else {
            Seq::<Option<Intersect>>::empty()
        }) + (if step.z != 0 {
            self.sector_hits(entity, step)
        } else {
            Seq::<Option<Intersect>>::empty()
        }) + self.entity_hits(entity, step)
    }

    /// The first thing that a box moving by `step` runs into, among what
    /// stops a category of `mask`.
    pub open spec fn spec_trace(self, entity: AABB3, step: Vec3, mask: SolidMask) -> Option<
        Intersect,
    > {
        nearest(self.all_hits(entity, step), mask)
    }
}

/// Everything a moving box can run into: the level, its live heights, and
/// the other entities.
pub struct MoveTracer<'a> {
    pub map: &'a LevelMap,
    pub map_dynamic: &'a MapDynamic,
    pub transforms: &'a Vec<Option<Transform>>,
    pub box_colliders: &'a Vec<Option<BoxCollider>>,
}

impl<'a> MoveTracer<'a> {
    pub open spec fn wf(self) -> bool {
        self@.wf()
    }

    /// What this tracer sees, as plain values.
    pub open spec fn view(self) -> Scene {
        Scene {
            map: *self.map,
            map_dynamic: *self.map_dynamic,
            transforms: self.transforms@,
            box_colliders: self.box_colliders@,
        }
    }

    /// The hit of the moving box on another entity's collider.
    pub fn trace_aabb(
        &self,
        entity_bbox: &AABB3,
        move_step: Vec3,
        box_collider: &BoxCollider,
        other_position: Vec3,
    ) -> (r: Option<Intersect>)
        requires
            entity_bbox.wf(),
            move_step.wf(),
            box_collider.wf(),
        ensures
            r == spec_trace_boxes(
                *entity_bbox,
                move_step,
                collider_box(*box_collider, other_position),
                box_collider.solid_mask,
            ),
            r matches Some(i) ==> 0 <= i.fraction <= ONE && i.normal.is_direction(),
    {
        let other = box_of(box_collider, other_position);
        trace_boxes(entity_bbox, move_step, &other, box_collider.solid_mask)
    }

    /// The hit of the moving box on the floor or ceiling of a sector.
    pub fn trace_sector(&self, entity_bbox: &AABB3, move_step: Vec3, sector_index: usize) -> (r:
        Option<Intersect>)
        requires
            self.wf(),
            entity_bbox.wf(),
            move_step.wf(),
            sector_index < self.map.sectors.len(),
        ensures
            r == spec_trace_sector(
                *self.map,
                self.map_dynamic.sectors[sector_index as int].interval,
                sector_index as int,
                *entity_bbox,
                move_step,
            ),
            r matches Some(i) ==> 0 <= i.fraction <= ONE && i.normal.is_direction(),
    {
        if move_step.z == 0 {
            return None;
        }
        let heights = self.map_dynamic.sectors[sector_index].interval;
        let fraction: i128 = if move_step.z > 0 {
            fixed_ratio((heights.max - entity_bbox.z.max) as i128, move_step.z as i128)
        } else {
            fixed_ratio((heights.min - entity_bbox.z.min) as i128, move_step.z as i128)
        };
        if fraction < 0 || fraction > ONE as i128 {
            return None;
        }
        let f: i64 = fraction as i64;
        let moved = entity_bbox.offset(move_step.scale(f)).to_plan();
        if sector_overlap(self.map, sector_index, &moved) {
            Some(
                Intersect {
                    fraction: f,
                    normal: facing_normal(2, move_step.z),
                    solid_mask: SolidMask::all(),
                },
            )
        } else {
            None
        }
    }

    /// The hit of the moving box on a wall.
    pub fn trace_linedef(&self, entity_bbox: &AABB3, move_step: Vec3, linedef_index: usize) -> (r:
        Option<Intersect>)
        requires
            self.wf(),
            entity_bbox.wf(),
            move_step.wf(),
            linedef_index < self.map.linedefs.len(),
        ensures
            r == spec_trace_linedef(
                *self.map_dynamic,
                self.map.linedefs[linedef_index as int],
                *entity_bbox,
                move_step,
            ),
            r matches Some(i) ==> 0 <= i.fraction <= ONE && i.normal.is_direction(),
    {
        let linedef = &self.map.linedefs[linedef_index];
        assert(linedef.wf());
        let step2 = move_step.to_xy();
        let b = entity_bbox.to_plan();
        let swept = b.union(&b.offset(step2));
        if !swept.overlaps(&linedef.bbox) {
            return None;
        }
        let wall = wall_normal_of(linedef, step2);
        let ghost hits = wall_hits(b, step2, *linedef);
        let mut best: Option<(i64, Vec3)> = None;
        let mut i: usize = 0;
        assert(hits.take(0) =~= Seq::<Option<(int, Vec3)>>::empty());
        while i < 4
            invariant
                i <= 4,
                b.wf(),
                step2.wf(),
                linedef.wf(),
                wall == wall_normal(*linedef, step2),
                wall.is_direction(),
                hits == wall_hits(b, step2, *linedef),
                lift(best) == earliest(hits.take(3 * i as int)),
                best matches Some((f, n)) ==> 0 <= f <= ONE && n.is_direction(),
            decreases 4 - i,
        {
            let ghost k = 3 * i as int;
            probe_corner(&mut best, &b, step2, linedef, wall, i);
            proof {
                assert(hits.take(k + 1).drop_last() =~= hits.take(k));
                assert(hits.take(k + 1).last() == hits[k]);
                assert(hits.take(k + 2).drop_last() =~= hits.take(k + 1));
                assert(hits.take(k + 2).last() == hits[k + 1]);
                assert(hits.take(k + 3).drop_last() =~= hits.take(k + 2));
                assert(hits.take(k + 3).last() == hits[k + 2]);
                assert(hits[k] == corner_hit(b, step2, *linedef, i as int));
                assert(hits[k + 1] == vertex_hit(b, step2, *linedef, linedef.line.point, i as int));
                assert(hits[k + 2] == vertex_hit(b, step2, *linedef, linedef.line.end(), i as int));
                let e0 = earliest(hits.take(k));
                let e1 = earliest(hits.take(k + 1));
                let e2 = earliest(hits.take(k + 2));
                let e3 = earliest(hits.take(k + 3));
                assert(e1 == better(e0, hits[k]));
                assert(e2 == better(e1, hits[k + 1]));
                assert(e3 == better(e2, hits[k + 2]));
                assert(k + 3 == 3 * (i + 1) as int);
            }
            i += 1;
        }
        assert(hits.take(12) =~= hits);
        match best {
            None => None,
            Some((f, n)) => {
                let mut solid_mask = SolidMask::all();
                if let (Some(front), Some(behind)) = (linedef.sidedefs[0], linedef.sidedefs[1]) {
                    assert(self.map.side_ok(linedef.sidedefs[0]));
                    assert(self.map.side_ok(linedef.sidedefs[1]));
                    let gap = self.map_dynamic.sectors[front.sector_index].interval.intersection(
                        self.map_dynamic.sectors[behind.sector_index].interval,
                    );
                    let end_z = entity_bbox.z.offset(crate::geometry::scale_coord(move_step.z, f));
                    if end_z.is_inside(gap) {
                        solid_mask = linedef.solid_mask;
                    }
                }
                Some(Intersect { fraction: f, normal: n, solid_mask })
            },
        }
    }
}

/// Takes `hit` as the nearest so far if it stops a category of `mask` and
/// comes earlier.
pub fn pick(best: &mut Option<Intersect>, hit: Option<Intersect>, mask: SolidMask)
    ensures
        *final(best) == nearer(*old(best), hit, mask),
{
    if let Some(h) = hit {
        let sooner = match *best {
            Some(b) => h.fraction < b.fraction,
            None => h.fraction <= ONE,
        };
        if sooner && mask.intersects(h.solid_mask) {
            *best = Some(h);
        }
    }
}

/// Whatever `nearest` returns is one of the hits, and so has what all of
/// them have.
pub proof fn lemma_nearest_is_member(hits: Seq<Option<Intersect>>, mask: SolidMask)
    ensures
        nearest(hits, mask) matches Some(h) ==> h.fraction <= ONE && mask.spec_intersects(
            h.solid_mask,
        ) && exists|k: int| 0 <= k < hits.len() && #[trigger] hits[k] == Some(h),
    decreases hits.len(),
{
    if hits.len() > 0 {
        let init = hits.drop_last();
        lemma_nearest_is_member(init, mask);
        if nearest(hits, mask) == nearest(init, mask) {
            if nearest(init, mask) is Some {
                let h = nearest(init, mask)->0;
                let k = choose|k: int| 0 <= k < init.len() && #[trigger] init[k] == Some(h);
                assert(hits[k] == Some(h));
            }
        } else {
            assert(hits[hits.len() - 1] == hits.last());
        }
    }
}

/// `nearest` comes no later than any hit that stops a category of `mask`
/// and lies no later than the end of the step.
pub proof fn lemma_nearest_is_least(hits: Seq<Option<Intersect>>, mask: SolidMask, k: int)
    requires
        0 <= k < hits.len(),
        hits[k] matches Some(h) && h.fraction <= ONE && mask.spec_intersects(h.solid_mask),
    ensures
        nearest(hits, mask) matches Some(n) && n.fraction <= hits[k]->0.fraction,
    decreases hits.len(),
{
    let init = hits.drop_last();
    if k < hits.len() - 1 {
        assert(init[k] == hits[k]);
        lemma_nearest_is_least(init, mask, k);
    } else {
        assert(hits.last() == hits[k]);
    }
}

/// A hit of the wall lies within the step.
pub proof fn lemma_wall_hit_within_step(
    map_dynamic: MapDynamic,
    linedef: Linedef,
    entity: AABB3,
    step: Vec3,
)
    ensures
        spec_trace_linedef(map_dynamic, linedef, entity, step) matches Some(h) ==> 0 <= h.fraction
            <= ONE,
{
    let hits = wall_hits(entity.plan(), step.xy(), linedef);
    assert forall|k: int| 0 <= k < hits.len() implies ((#[trigger] hits[k]) matches Some(
        (f, _),
    ) ==> f >= 0) by {
        let c = k / 3;
        if k % 3 == 0 {
            assert(hits[k] == corner_hit(entity.plan(), step.xy(), linedef, c));
        } else if k % 3 == 1 {
            assert(hits[k] == vertex_hit(entity.plan(), step.xy(), linedef, linedef.line.point, c));
        } else {
            assert(hits[k] == vertex_hit(entity.plan(), step.xy(), linedef, linedef.line.end(), c));
        }
    }
    lemma_earliest_bounds(hits);
}

/// `nearest` gives nothing exactly when no hit both stops a category of
/// `mask` and lies no later than the end of the step.
pub proof fn lemma_nearest_is_none(hits: Seq<Option<Intersect>>, mask: SolidMask)
    ensures
        nearest(hits, mask) is None <==> forall|k: int|
            0 <= k < hits.len() ==> ((#[trigger] hits[k]) matches Some(h) ==> !(h.fraction <= ONE
                && mask.spec_intersects(h.solid_mask))),
    decreases hits.len(),
{
    if hits.len() > 0 {
        let init = hits.drop_last();
        let last = hits.len() - 1;
        lemma_nearest_is_none(init, mask);
        assert(hits.last() == hits[last]);
        assert(forall|k: int| 0 <= k < init.len() ==> init[k] == hits[k]);
        if nearest(hits, mask) is None {
            assert forall|k: int| 0 <= k < hits.len() implies ((#[trigger] hits[k]) matches Some(
                h,
            ) ==> !(h.fraction <= ONE && mask.spec_intersects(h.solid_mask))) by {
                if k < last {
                    assert(init[k] == hits[k]);
                }
            }
        }
        if forall|k: int|
            0 <= k < hits.len() ==> ((#[trigger] hits[k]) matches Some(h) ==> !(h.fraction <= ONE
                && mask.spec_intersects(h.solid_mask))) {
            assert forall|k: int| 0 <= k < init.len() implies ((#[trigger] init[k]) matches Some(
                h,
            ) ==> !(h.fraction <= ONE && mask.spec_intersects(h.solid_mask))) by {
                assert(init[k] == hits[k]);
            }
        }
    }
}

impl Scene {
    /// Every candidate hit lies within the step.
    pub proof fn lemma_candidates_within_step(self, entity: AABB3, step: Vec3, k: int)
        requires
            0 <= k < self.all_hits(entity, step).len(),
        ensures
            self.all_hits(entity, step)[k] matches Some(h) ==> 0 <= h.fraction <= ONE,
    {
        let walls = if step.x != 0 || step.y != 0 {
            self.linedef_hits(entity, step)
        } else {
            Seq::<Option<Intersect>>::empty()
        };
        let floors = if step.z != 0 {
            self.sector_hits(entity, step)
        } else {
            Seq::<Option<Intersect>>::empty()
        };
        if k < walls.len() {
            lemma_wall_hit_within_step(self.map_dynamic, self.map.linedefs[k], entity, step);
        } else if k < walls.len() + floors.len() {
        } else {
        }
    }

    /// The trace gives the nearest of the candidates that stop a category of
    /// `mask`: nothing exactly when there is no such candidate; else one of
    /// them, and none of them comes earlier.
    pub proof fn lemma_trace_is_nearest(self, entity: AABB3, step: Vec3, mask: SolidMask)
        ensures
            self.spec_trace(entity, step, mask) is None <==> forall|k: int|
                0 <= k < self.all_hits(entity, step).len() ==> ((
                #[trigger] self.all_hits(entity, step)[k]) matches Some(h)
                    ==> !mask.spec_intersects(h.solid_mask)),
            self.spec_trace(entity, step, mask) matches Some(n) ==> {
                &&& mask.spec_intersects(n.solid_mask)
                &&& exists|k: int|
                    0 <= k < self.all_hits(entity, step).len() && #[trigger] self.all_hits(
                        entity,
                        step,
                    )[k] == Some(n)
                &&& forall|k: int|
                    0 <= k < self.all_hits(entity, step).len() ==> ((
                    #[trigger] self.all_hits(entity, step)[k]) matches Some(h) ==> (
                    mask.spec_intersects(h.solid_mask) ==> n.fraction <= h.fraction))
            },
    {
        let hits = self.all_hits(entity, step);
        lemma_nearest_is_none(hits, mask);
        lemma_nearest_is_member(hits, mask);
        assert forall|k: int| 0 <= k < hits.len() implies ((#[trigger] hits[k]) matches Some(h)
            ==> h.fraction <= ONE) by {
            self.lemma_candidates_within_step(entity, step, k);
        }
        if self.spec_trace(entity, step, mask) is Some {
            let n = self.spec_trace(entity, step, mask)->0;
            assert forall|k: int| 0 <= k < hits.len() implies ((#[trigger] hits[k]) matches Some(h)
                ==> (mask.spec_intersects(h.solid_mask) ==> n.fraction <= h.fraction)) by {
                if hits[k] is Some && mask.spec_intersects(hits[k]->0.solid_mask) {
                    lemma_nearest_is_least(hits, mask, k);
                }
            }
        }
    }
}

impl<'a> MoveTracer<'a> {
    /// The first thing that the box runs into when it moves by `move_step`,
    /// among what stops a category of `solid_mask`.
    pub fn trace(&self, entity_bbox: &AABB3, move_step: Vec3, solid_mask: SolidMask) -> (r: Option<
        Intersect,
    >)
        requires
            self.wf(),
            entity_bbox.wf(),
            move_step.wf(),
        ensures
            r == self@.spec_trace(*entity_bbox, move_step, solid_mask),
            r matches Some(i) ==> 0 <= i.fraction <= ONE && i.normal.is_direction(),
    {
        let mut ret: Option<Intersect> = None;
        let ghost walls = if move_step.x != 0 || move_step.y != 0 {
            self@.linedef_hits(*entity_bbox, move_step)
        } else {
            Seq::<Option<Intersect>>::empty()
        };
        let ghost floors = if move_step.z != 0 {
            self@.sector_hits(*entity_bbox, move_step)
        } else {
            Seq::<Option<Intersect>>::empty()
        };
        let ghost others = self@.entity_hits(*entity_bbox, move_step);
        if move_step.x != 0 || move_step.y != 0 {
            let mut i: usize = 0;
            assert(walls.take(0) =~= Seq::<Option<Intersect>>::empty());
            while i < self.map.linedefs.len()
                invariant
                    i <= self.map.linedefs.len(),
                    self.wf(),
                    entity_bbox.wf(),
                    move_step.wf(),
                    walls == self@.linedef_hits(*entity_bbox, move_step),
                    ret == nearest(walls.take(i as int), solid_mask),
                    ret matches Some(h) ==> 0 <= h.fraction <= ONE && h.normal.is_direction(),
                decreases self.map.linedefs.len() - i,
            {
                let hit = self.trace_linedef(entity_bbox, move_step, i);
                pick(&mut ret, hit, solid_mask);
                proof {
                    assert(walls.take(i + 1).drop_last() =~= walls.take(i as int));
                    assert(walls.take(i + 1).last() == walls[i as int]);
                }
                i += 1;
            }
            assert(walls.take(i as int) =~= walls);
        }
        assert(ret == nearest(walls, solid_mask));
        if move_step.z != 0 {
            let mut j: usize = 0;
            assert(walls + floors.take(0) =~= walls);
            while j < self.map.sectors.len()
                invariant
                    j <= self.map.sectors.len(),
                    self.wf(),
                    entity_bbox.wf(),
                    move_step.wf(),
                    floors == self@.sector_hits(*entity_bbox, move_step),
                    ret == nearest(walls + floors.take(j as int), solid_mask),
                    ret matches Some(h) ==> 0 <= h.fraction <= ONE && h.normal.is_direction(),
                decreases self.map.sectors.len() - j,
            {
                let hit = self.trace_sector(entity_bbox, move_step, j);
                pick(&mut ret, hit, solid_mask);
                proof {
                    let now = walls + floors.take(j + 1);
                    assert(now.drop_last() =~= walls + floors.take(j as int));
                    assert(now.last() == floors[j as int]);
                }
                j += 1;
            }
            assert(floors.take(j as int) =~= floors);
        }
        assert(walls + floors =~= walls + floors);
        assert(ret == nearest(walls + floors, solid_mask)) by {
            if move_step.z == 0 {
                assert(walls + floors =~= walls);
            }
        }
        let mut k: usize = 0;
        assert(walls + floors + others.take(0) =~= walls + floors);
        while k < self.transforms.len()
            invariant
                k <= self.transforms.len(),
                self.wf(),
                entity_bbox.wf(),
                move_step.wf(),
                others == self@.entity_hits(*entity_bbox, move_step),
                ret == nearest(walls + floors + others.take(k as int), solid_mask),
                ret matches Some(h) ==> 0 <= h.fraction <= ONE && h.normal.is_direction(),
            decreases self.transforms.len() - k,
        {
            let hit = match (&self.transforms[k], &self.box_colliders[k]) {
                (Some(t), Some(c)) => self.trace_aabb(entity_bbox, move_step, c, t.position),
                _ => None,
            };
            assert(hit == others[k as int]);
            pick(&mut ret, hit, solid_mask);
            proof {
                let now = walls + floors + others.take(k + 1);
                assert(now.drop_last() =~= walls + floors + others.take(k as int));
                assert(now.last() == others[k as int]);
            }
            k += 1;
        }
        assert(others.take(k as int) =~= others);
        ret
    }
}

/// How much of one component of a velocity is taken away when the velocity
/// is deflected off a surface: the surface normal's component `n`, times the
/// velocity's extent `d` along the normal, and one hundredth more, rounded
/// away from zero.
pub open spec fn push_back(n: int, d: int) -> int {
    div_away(n * d * 101, 429_496_729_600)
}

/// The three components of `v` deflected off a surface with normal `n`,
/// before they are brought into the coordinate range.
pub open spec fn pushed(v: Vec3, n: Vec3) -> (int, int, int) {
    let d = dot3(v, n);
    (v.x - push_back(n.x as int, d), v.y - push_back(n.y as int, d), v.z - push_back(n.z as int, d))
}

/// `v` deflected off a surface with normal `n`.
pub open spec fn spec_deflected(v: Vec3, n: Vec3) -> Vec3 {
    let p = pushed(v, n);
    Vec3 { x: saturate(p.0) as i64, y: saturate(p.1) as i64, z: saturate(p.2) as i64 }
}

fn deflect_component(v: i64, n: i64, d: i128) -> (r: i64)
    requires
        in_range(v as int),
        -ONE <= n <= ONE,
        -0x3_0000_0000_0000_0000_0000 <= d <= 0x3_0000_0000_0000_0000_0000,
    ensures
        r == saturate(v - push_back(n as int, d as int)),
        in_range(r as int),
{
    proof {
        lemma_mul_bound(n as int, d as int, 65536, 0x3_0000_0000_0000_0000_0000);
    }
    let a: i128 = (n as i128) * d * 101;
    let c: i128 = div_round_away(a, 429_496_729_600);
    proof {
        lemma_div_floor_bounds(a as int, 429_496_729_600);
        lemma_div_floor_bounds(a + 429_496_729_600 - 1, 429_496_729_600);
    }
    clamp_coord(v as i128 - c)
}

/// Takes out of `v` its part along the normal `n`, and a hundredth more, so
/// that the result does not lead back into the surface.
pub fn deflected(v: Vec3, n: Vec3) -> (r: Vec3)
    requires
        v.wf(),
        n.is_direction(),
    ensures
        r == spec_deflected(v, n),
        r.wf(),
{
    let d: i128 = v.dot(n);
    Vec3 {
        x: deflect_component(v.x, n.x, d),
        y: deflect_component(v.y, n.y, d),
        z: deflect_component(v.z, n.z, d),
    }
}

/// What is taken from a component has the sign of that component of the
/// normal times the velocity's extent along the normal, and is at least as
/// large as the exact amount.
pub proof fn lemma_push_back_sign(n: int, d: int)
    ensures
        d <= 0 ==> 429_496_729_600 * (n * push_back(n, d)) <= n * n * d * 101,
        d >= 0 ==> 429_496_729_600 * (n * push_back(n, d)) >= n * n * d * 101,
{
    let a = n * d * 101;
    let big = 429_496_729_600int;
    let c = push_back(n, d);
    lemma_div_floor_bounds(a, big);
    lemma_div_floor_bounds(a + big - 1, big);
    assert(a >= 0 ==> big * c >= a) by (nonlinear_arith)
        requires
            a >= 0 ==> c == (a + big - 1) / big,
            (a + big - 1) < ((a + big - 1) / big + 1) * big,
            big == 429_496_729_600,
    ;
    assert(a < 0 ==> big * c <= a) by (nonlinear_arith)
        requires
            a < 0 ==> c == a / big,
            a / big * big <= a,
    ;
    assert(a == 0 ==> c == 0);
    assert(n * a == n * n * d * 101) by (nonlinear_arith)
        requires
            a == n * d * 101,
    ;
    assert(big * (n * c) == n * (big * c)) by (nonlinear_arith);
    assert(d <= 0 && n > 0 ==> a <= 0) by (nonlinear_arith)
        requires
            a == n * d * 101,
    ;
    assert(d <= 0 && n < 0 ==> a >= 0) by (nonlinear_arith)
        requires
            a == n * d * 101,
    ;
    assert(d >= 0 && n > 0 ==> a >= 0) by (nonlinear_arith)
        requires
            a == n * d * 101,
    ;
    assert(d >= 0 && n < 0 ==> a <= 0) by (nonlinear_arith)
        requires
            a == n * d * 101,
    ;
    let x = big * c;
    assert(n > 0 && x <= a ==> n * x <= n * a) by (nonlinear_arith);
    assert(n < 0 && x >= a ==> n * x <= n * a) by (nonlinear_arith);
    assert(n > 0 && x >= a ==> n * x >= n * a) by (nonlinear_arith);
    assert(n < 0 && x <= a ==> n * x >= n * a) by (nonlinear_arith);
    assert(n == 0 ==> n * x == 0 && n * a == 0) by (nonlinear_arith);
}

/// A velocity that led into a surface no longer does once it is deflected,
/// and one that led away from it no longer leads away: along the normal, the
/// deflected velocity has the opposite sign or is zero. This holds for every
/// normal that is no shorter than a unit by more than half a hundredth, as
/// every direction is, and so the normal of every hit.
pub proof fn lemma_deflection_turns_normal_component(v: Vec3, n: Vec3)
    requires
        101 * dot3(n, n) >= 100 * ONE * ONE,
    ensures
        dot3(v, n) <= 0 ==> n.x * pushed(v, n).0 + n.y * pushed(v, n).1 + n.z * pushed(v, n).2
            >= 0,
        dot3(v, n) >= 0 ==> n.x * pushed(v, n).0 + n.y * pushed(v, n).1 + n.z * pushed(v, n).2
            <= 0,
{
    let d = dot3(v, n);
    let nx = n.x as int;
    let ny = n.y as int;
    let nz = n.z as int;
    let cx = push_back(nx, d);
    let cy = push_back(ny, d);
    let cz = push_back(nz, d);
    let big = 429_496_729_600int;
    lemma_push_back_sign(nx, d);
    lemma_push_back_sign(ny, d);
    lemma_push_back_sign(nz, d);
    let taken = nx * cx + ny * cy + nz * cz;
    let nn = nx * nx + ny * ny + nz * nz;
    assert(nn == dot3(n, n));
    let after = nx * (v.x - cx) + ny * (v.y - cy) + nz * (v.z - cz);
    assert(after == d - taken) by (nonlinear_arith)
        requires
            after == nx * (v.x - cx) + ny * (v.y - cy) + nz * (v.z - cz),
            d == v.x * nx + v.y * ny + v.z * nz,
            taken == nx * cx + ny * cy + nz * cz,
    ;
    assert(big * taken == big * (nx * cx) + big * (ny * cy) + big * (nz * cz)) by (nonlinear_arith)
        requires
            taken == nx * cx + ny * cy + nz * cz,
    ;
    assert(nx * nx * d * 101 + ny * ny * d * 101 + nz * nz * d * 101 == nn * d * 101)
        by (nonlinear_arith)
        requires
            nn == nx * nx + ny * ny + nz * nz,
    ;
    if d <= 0 {
        assert(big * taken <= nn * d * 101);
        assert(nn * d * 101 <= big * d) by (nonlinear_arith)
            requires
                d <= 0,
                101 * nn >= big,
        ;
        assert(taken <= d) by (nonlinear_arith)
            requires
                big * taken <= big * d,
                big == 429_496_729_600,
        ;
    }
    if d >= 0 {
        assert(big * taken >= nn * d * 101);
        assert(nn * d * 101 >= big * d) by (nonlinear_arith)
            requires
                d >= 0,
                101 * nn >= big,
        ;
        assert(taken >= d) by (nonlinear_arith)
            requires
                big * taken >= big * d,
                big == 429_496_729_600,
        ;
    }
}

/// How far a velocity carries in `delta` nanoseconds, each component
/// stopping at the coordinate limit.
pub open spec fn step_of(v: Vec3, delta: u64) -> Vec3 {
    Vec3 {
        x: saturate(travel(v.x as int, delta as int)) as i64,
        y: saturate(travel(v.y as int, delta as int)) as i64,
        z: saturate(travel(v.z as int, delta as int)) as i64,
    }
}

pub fn move_step(v: Vec3, delta: u64) -> (r: Vec3)
    ensures
        r == step_of(v, delta),
        r.wf(),
{
    Vec3 {
        x: clamp_coord(distance_moved(v.x, delta)),
        y: clamp_coord(distance_moved(v.y, delta)),
        z: clamp_coord(distance_moved(v.z, delta)),
    }
}

impl Scene {
    /// Where a box that stands at `position` with the velocity `velocity`
    /// ends up, and with what velocity, when it is given `tries` attempts at
    /// moving for `delta` nanoseconds. An attempt that runs into nothing
    /// takes the whole step and ends the move. One that runs into something
    /// deflects the velocity off it and leaves the box where it is; if the
    /// deflected velocity no longer leads the way the box set out
    /// (`initial`), the box stops for good, else the next attempt follows.
    pub open spec fn advance(
        self,
        local: AABB3,
        position: Vec3,
        velocity: Vec3,
        initial: Vec3,
        delta: u64,
        tries: nat,
    ) -> (Vec3, Vec3)
        decreases tries,
    {
        if tries == 0 {
            (position, velocity)
        } else {
            let step = step_of(velocity, delta);
            match self.spec_trace(local.spec_offset(position), step, SolidMask { bits: 1 }) {
                Some(hit) => {
                    let turned = spec_deflected(velocity, hit.normal);
                    if dot3(turned, initial) <= 0 {
                        (position, Vec3 { x: 0, y: 0, z: 0 })
                    } else {
                        self.advance(local, position, turned, initial, delta, (tries - 1) as nat)
                    }
                },
                None => (position.spec_plus(step), velocity),
            }
        }
    }

    /// The place and velocity of the entity in row `i` after its move; both
    /// as they were if the row lacks a collider, a place or a velocity, or if
    /// the velocity is zero.
    pub open spec fn moved(self, velocities: Seq<Option<Velocity>>, i: int, delta: u64) -> (
        Option<Transform>,
        Option<Velocity>,
    ) {
        match (self.box_colliders[i], self.transforms[i], velocities[i]) {
            (Some(c), Some(t), Some(v)) => if v.velocity.is_zero() {
                (self.transforms[i], velocities[i])
            } else {
                let end = self.advance(
                    AABB3::spec_from_radius_height(c.radius, c.height),
                    t.position,
                    v.velocity,
                    v.velocity,
                    delta,
                    4,
                );
                (
                    Some(Transform { position: end.0, rotation: t.rotation }),
                    Some(Velocity { velocity: end.1 }),
                )
            },
            _ => (self.transforms[i], velocities[i]),
        }
    }
}

/// The places and velocities of all entities after the first `upto` of
/// them, in creation order, have each made their move. Each entity moves
/// among the others as they stand when its turn comes.
pub open spec fn simulated(
    map: LevelMap,
    map_dynamic: MapDynamic,
    box_colliders: Seq<Option<BoxCollider>>,
    transforms: Seq<Option<Transform>>,
    velocities: Seq<Option<Velocity>>,
    delta: u64,
    upto: nat,
) -> (Seq<Option<Transform>>, Seq<Option<Velocity>>)
    decreases upto,
{
    if upto == 0 {
        (transforms, velocities)
    } else {
        let before = simulated(
            map,
            map_dynamic,
            box_colliders,
            transforms,
            velocities,
            delta,
            (upto - 1) as nat,
        );
        let i = upto - 1;
        let scene = Scene { map, map_dynamic, transforms: before.0, box_colliders };
        let m = scene.moved(before.1, i, delta);
        (before.0.update(i, m.0), before.1.update(i, m.1))
    }
}

impl<'a> MoveTracer<'a> {
    /// Moves a box for `delta` nanoseconds in at most `tries` attempts.
    pub fn advance(
        &self,
        local: &AABB3,
        position: Vec3,
        velocity: Vec3,
        initial: Vec3,
        delta: u64,
        tries: u8,
    ) -> (r: (Vec3, Vec3))
        requires
            self.wf(),
            velocity.wf(),
            initial.wf(),
        ensures
            r == self@.advance(*local, position, velocity, initial, delta, tries as nat),
            r.1.wf(),
        decreases tries,
    {
        if tries == 0 {
            return (position, velocity);
        }
        let step = move_step(velocity, delta);
        let here = local.offset(position);
        match self.trace(&here, step, SolidMask::non_monster()) {
            Some(hit) => {
                let turned = deflected(velocity, hit.normal);
                if turned.dot(initial) <= 0 {
                    (position, Vec3::zero())
                } else {
                    self.advance(local, position, turned, initial, delta, tries - 1)
                }
            },
            None => (position.plus(step), velocity),
        }
    }
}

/// Moves every entity that has a collider, a place and a velocity, once
/// per tick.
#[derive(Clone, Copy, Debug, PartialEq, Eq, Structural)]
pub struct PhysicsSystem;

impl Default for PhysicsSystem {
    fn default() -> (s: PhysicsSystem)
        ensures
            s == PhysicsSystem,
    {
        PhysicsSystem
    }
}

impl PhysicsSystem {
    /// Moves the entities of the given tables, in creation order.
    pub fn simulate(
        transforms: &mut Vec<Option<Transform>>,
        velocities: &mut Vec<Option<Velocity>>,
        box_colliders: &Vec<Option<BoxCollider>>,
        map: &LevelMap,
        map_dynamic: &MapDynamic,
        delta: u64,
    )
        requires
            map.wf(),
            map_dynamic.wf(*map),
            old(transforms).len() == box_colliders.len(),
            old(velocities).len() == box_colliders.len(),
            colliders_wf(box_colliders@),
            velocities_wf(old(velocities)@),
        ensures
            (final(transforms)@, final(velocities)@) == simulated(
                *map,
                *map_dynamic,
                box_colliders@,
                old(transforms)@,
                old(velocities)@,
                delta,
                box_colliders.len() as nat,
            ),
            final(transforms).len() == box_colliders.len(),
            final(velocities).len() == box_colliders.len(),
            velocities_wf(final(velocities)@),
    {
        let n = box_colliders.len();
        let mut i: usize = 0;
        while i < n
            invariant
                i <= n,
                n == box_colliders.len(),
                map.wf(),
                map_dynamic.wf(*map),
                transforms.len() == n,
                velocities.len() == n,
                colliders_wf(box_colliders@),
                velocities_wf(velocities@),
                (transforms@, velocities@) == simulated(
                    *map,
                    *map_dynamic,
                    box_colliders@,
                    old(transforms)@,
                    old(velocities)@,
                    delta,
                    i as nat,
                ),
            decreases n - i,
        {
            let ghost scene = Scene {
                map: *map,
                map_dynamic: *map_dynamic,
                transforms: transforms@,
                box_colliders: box_colliders@,
            };
            let ghost m = scene.moved(velocities@, i as int, delta);
            let c = box_colliders[i];
            let t = transforms[i];
            let v = velocities[i];
            match (c, t, v) {
                (Some(c), Some(t), Some(v)) => {
                    if !(v.velocity.x == 0 && v.velocity.y == 0 && v.velocity.z == 0) {
                        let local = AABB3::from_radius_height(c.radius, c.height);
                        let tracer = MoveTracer {
                            map,
                            map_dynamic,
                            transforms: &*transforms,
                            box_colliders,
                        };
                        assert(tracer@ == scene);
                        let end = tracer.advance(
                            &local,
                            t.position,
                            v.velocity,
                            v.velocity,
                            delta,
                            4,
                        );
                        transforms[i] = Some(Transform { position: end.0, rotation: t.rotation });
                        velocities[i] = Some(Velocity { velocity: end.1 });
                    } else {
                        assert(transforms@ =~= scene.transforms.update(i as int, m.0));
                        assert(velocities@ =~= velocities@.update(i as int, m.1));
                    }
                },
                _ => {
                    assert(transforms@ =~= scene.transforms.update(i as int, m.0));
                    assert(velocities@ =~= velocities@.update(i as int, m.1));
                },
            }
            i += 1;
        }
    }
}

impl World {
    /// The tables that a physics tick leaves alone are the same in both
    /// worlds.
    pub open spec fn same_but_motion(self, other: World) -> bool {
        &&& self.alive@ == other.alive@
        &&& self.box_colliders@ == other.box_colliders@
        &&& self.spawn_on_ceilings@ == other.spawn_on_ceilings@
        &&& self.spawn_points@ == other.spawn_points@
        &&& self.sprite_renders@ == other.sprite_renders@
        &&& self.use_actions@ == other.use_actions@
        &&& self.door_actives@ == other.door_actives@
        &&& self.switch_actives@ == other.switch_actives@
        &&& self.linedef_refs@ == other.linedef_refs@
        &&& self.sector_refs@ == other.sector_refs@
        &&& self.map_dynamics@ == other.map_dynamics@
    }
}

impl PhysicsSystem {
    /// One tick of movement for the whole world: every entity with a
    /// collider, a place and a velocity is moved against the level `map`, its
    /// live heights as the world holds them, and the other entities. Without
    /// a spawned level nothing moves.
    pub fn run_now(&mut self, world: &mut World, map: &LevelMap, delta: u64)
        requires
            old(world).wf(),
            old(world).moving_wf(),
            map.wf(),
            old(world).spec_map_entity() matches Some(m) ==> old(world).map_dynamics[m]->0.wf(*map),
        ensures
            final(world).wf(),
            final(world).moving_wf(),
            final(world).same_but_motion(*old(world)),
            match old(world).spec_map_entity() {
                Some(m) => (final(world).transforms@, final(world).velocities@) == simulated(
                    *map,
                    old(world).map_dynamics[m]->0,
                    old(world).box_colliders@,
                    old(world).transforms@,
                    old(world).velocities@,
                    delta,
                    old(world).count(),
                ),
                None => {
                    &&& final(world).transforms@ == old(world).transforms@
                    &&& final(world).velocities@ == old(world).velocities@
                },
            },
    {
        if let Some(e) = world.map_entity() {
            if let Some(map_dynamic) = &world.map_dynamics[e.id] {
                Self::simulate(
                    &mut world.transforms,
                    &mut world.velocities,
                    &world.box_colliders,
                    map,
                    map_dynamic,
                    delta,
                );
            }
        }
    }
}

/// The mover `a` runs into `b`: the two, taken as infinite lines, meet at a
/// point that lies on `a` between its start and its end, and on `b`
/// between its ends.
pub open spec fn crosses(a: Line2, b: Line2) -> bool {
    let den = cross2(a.dir, b.dir);
    let diff = b.point.spec_minus(a.point);
    let along_a = cross2(diff, b.dir);
    let along_b = cross2(diff, a.dir);
    ||| den > 0 && 0 <= along_a <= den && 0 <= along_b <= den
    ||| den < 0 && den <= along_a <= 0 && den <= along_b <= 0
}

/// A quotient between 0 and 1 is, as a fixed-point number, between 0 and
/// `ONE`.
pub proof fn lemma_ratio_of_fraction(num: int, den: int)
    requires
        den > 0 && 0 <= num <= den || den < 0 && den <= num <= 0,
    ensures
        0 <= ratio(num, den) <= ONE,
{
    let n = if den > 0 {
        num
    } else {
        -num
    };
    let d = if den > 0 {
        den
    } else {
        -den
    };
    let q = n * 65536 / d;
    assert(ratio(num, den) == q);
    lemma_div_floor_bounds(n * 65536, d);
    assert(0 <= n * 65536 <= d * 65536) by (nonlinear_arith)
        requires
            0 <= n <= d,
    ;
    assert(q <= 65536) by (nonlinear_arith)
        requires
            q * d <= n * 65536,
            n * 65536 <= d * 65536,
            d > 0,
    ;
}

/// A mover that runs into something is found to hit it, within its step.
pub proof fn lemma_crossing_is_hit(a: Line2, b: Line2, normal: Vec3)
    requires
        crosses(a, b),
    ensures
        valid_hit(a.spec_intersect(b), normal) matches Some((f, n)) && 0 <= f <= ONE && n == normal,
{
    let den = cross2(a.dir, b.dir);
    let diff = b.point.spec_minus(a.point);
    lemma_ratio_of_fraction(cross2(diff, b.dir), den);
    lemma_ratio_of_fraction(cross2(diff, a.dir), den);
}

/// On which side of the line the point (`x`, `y`) lies: how far in front of
/// it, times the length of the line; negative behind it, 0 on it. The front
/// is to the right of the line's direction.
pub open spec fn side_of(line: Line2, x: int, y: int) -> int {
    (x - line.point.x) * line.dir.y - (y - line.point.y) * line.dir.x
}

/// The path from `from` along `step`, drawn out to a whole line, meets the
/// line of the wall between the wall's ends, or does not meet it because the
/// two are parallel.
pub open spec fn meets_within(wall: Line2, from: Vec2, step: Vec2) -> bool {
    let den = cross2(step, wall.dir);
    let along = cross2(wall.point.spec_minus(from), step);
    ||| den == 0
    ||| den > 0 && 0 <= along <= den
    ||| den < 0 && den <= along <= 0
}

/// Some way in which the box can run into the wall does happen within the
/// step: a corner of the box runs into the wall, or an end of the wall into
/// an edge of the box.
pub open spec fn runs_into(b: AABB2, step: Vec2, linedef: Linedef) -> bool {
    exists|i: int|
        0 <= i < 4 && #[trigger] runs_into_at(b, step, linedef, i)
}

/// Corner `i` of the box runs into the wall, or an end of the wall runs into
/// the edge of the box that starts at that corner.
pub open spec fn runs_into_at(b: AABB2, step: Vec2, linedef: Linedef, i: int) -> bool {
    ||| crosses(Line2 { point: b.spec_corners()[i], dir: step }, linedef.line)
    ||| crosses(Line2 { point: linedef.line.point, dir: step.spec_neg() }, edge(b, i))
    ||| crosses(Line2 { point: linedef.line.end(), dir: step.spec_neg() }, edge(b, i))
}

/// A box that runs into a wall within its step has a hit among the
/// `wall_hits`, within the step.
pub proof fn lemma_running_into_is_hit(b: AABB2, step: Vec2, linedef: Linedef)
    requires
        runs_into(b, step, linedef),
    ensures
        earliest(wall_hits(b, step, linedef)) matches Some((f, _)) && 0 <= f <= ONE,
{
    let hits = wall_hits(b, step, linedef);
    let i = choose|i: int| 0 <= i < 4 && #[trigger] runs_into_at(b, step, linedef, i);
    let k = if crosses(Line2 { point: b.spec_corners()[i], dir: step }, linedef.line) {
        lemma_crossing_is_hit(
            Line2 { point: b.spec_corners()[i], dir: step },
            linedef.line,
            wall_normal(linedef, step),
        );
        3 * i
    } else if crosses(Line2 { point: linedef.line.point, dir: step.spec_neg() }, edge(b, i)) {
        lemma_crossing_is_hit(
            Line2 { point: linedef.line.point, dir: step.spec_neg() },
            edge(b, i),
            wall_normal(linedef, step),
        );
        3 * i + 1
    } else {
        lemma_crossing_is_hit(
            Line2 { point: linedef.line.end(), dir: step.spec_neg() },
            edge(b, i),
            wall_normal(linedef, step),
        );
        3 * i + 2
    };
    assert(hits[k] matches Some((f, _)) && 0 <= f <= ONE);
    lemma_earliest_is_least(hits);
    assert forall|j: int| 0 <= j < hits.len() implies ((#[trigger] hits[j]) matches Some(
        (g, _),
    ) ==> g >= 0) by {
        let c = j / 3;
        if j % 3 == 0 {
            assert(hits[j] == corner_hit(b, step, linedef, c));
        } else if j % 3 == 1 {
            assert(hits[j] == vertex_hit(b, step, linedef, linedef.line.point, c));
        } else {
            assert(hits[j] == vertex_hit(b, step, linedef, linedef.line.end(), c));
        }
    }
    lemma_earliest_bounds(hits);
}

/// Where two lines cross, as seen from either: the start of the one and so
/// much of its direction gives the same point as the start of the other and
/// so much of its own.
pub proof fn lemma_crossing_point(a: Line2, b: Line2)
    requires
        a.point.wf(),
        b.point.wf(),
    ensures
        ({
            let den = cross2(a.dir, b.dir);
            let diff = b.point.spec_minus(a.point);
            let along_a = cross2(diff, b.dir);
            let along_b = cross2(diff, a.dir);
            &&& den * (b.point.x - a.point.x) == along_a * a.dir.x - along_b * b.dir.x
            &&& den * (b.point.y - a.point.y) == along_a * a.dir.y - along_b * b.dir.y
        }),
{
    let px = (b.point.x - a.point.x) as int;
    let py = (b.point.y - a.point.y) as int;
    let sx = a.dir.x as int;
    let sy = a.dir.y as int;
    let dx = b.dir.x as int;
    let dy = b.dir.y as int;
    let diff = b.point.spec_minus(a.point);
    assert(diff.x == px && diff.y == py);
    assert((sx * dy - sy * dx) * px == (px * dy - py * dx) * sx - (px * sy - py * sx) * dx)
        by (nonlinear_arith);
    assert((sx * dy - sy * dx) * py == (px * dy - py * dx) * sy - (px * sy - py * sx) * dy)
        by (nonlinear_arith);
}

/// A point part of the way from `from` to `from + dir` lies in any range
/// that holds both; here with every length scaled by `whole`.
pub proof fn lemma_part_way(whole: int, part: int, from: int, dir: int, low: int, high: int)
    requires
        whole > 0,
        0 <= part <= whole,
        low <= from <= high,
        low <= from + dir <= high,
    ensures
        whole * low <= whole * from + part * dir <= whole * high,
{
    assert(whole * from + part * dir == (whole - part) * from + part * (from + dir))
        by (nonlinear_arith);
    assert((whole - part) * low <= (whole - part) * from <= (whole - part) * high)
        by (nonlinear_arith)
        requires
            whole - part >= 0,
            low <= from <= high,
    ;
    assert(part * low <= part * (from + dir) <= part * high) by (nonlinear_arith)
        requires
            part >= 0,
            low <= from + dir <= high,
    ;
    assert((whole - part) * low + part * low == whole * low) by (nonlinear_arith);
    assert((whole - part) * high + part * high == whole * high) by (nonlinear_arith);
}

/// The step does not take the rectangle out of the coordinate range.
pub open spec fn stays_in_range(b: AABB2, step: Vec2) -> bool {
    &&& in_range(b.x.min + step.x)
    &&& in_range(b.x.max + step.x)
    &&& in_range(b.y.min + step.y)
    &&& in_range(b.y.max + step.y)
}

/// The rectangle swept by `b` on its way along `step`.
pub open spec fn swept(b: AABB2, step: Vec2) -> AABB2 {
    b.spec_union(b.spec_offset(step))
}

/// Two ranges that hold a common point, every length scaled by a positive
/// `whole`, overlap.
pub proof fn lemma_common_point(whole: int, point: int, a: Interval, b: Interval)
    requires
        whole > 0,
        whole * a.min <= point <= whole * a.max,
        whole * b.min <= point <= whole * b.max,
    ensures
        a.spec_overlaps(b),
{
    assert(a.min <= b.max) by (nonlinear_arith)
        requires
            whole > 0,
            whole * a.min <= whole * b.max,
    ;
    assert(b.min <= a.max) by (nonlinear_arith)
        requires
            whole > 0,
            whole * b.min <= whole * a.max,
    ;
}

/// Along one axis: where a mover from `from` along `dir` meets a segment
/// from `start` along `reach`, the range of the mover and that of the segment
/// overlap.
pub proof fn lemma_paths_meet(
    den: int,
    along_a: int,
    along_b: int,
    from: int,
    dir: int,
    start: int,
    reach: int,
    a: Interval,
    b: Interval,
)
    requires
        den > 0 && 0 <= along_a <= den && 0 <= along_b <= den || den < 0 && den <= along_a <= 0
            && den <= along_b <= 0,
        den * (start - from) == along_a * dir - along_b * reach,
        a.min <= from <= a.max,
        a.min <= from + dir <= a.max,
        b.min <= start <= b.max,
        b.min <= start + reach <= b.max,
    ensures
        a.spec_overlaps(b),
{
    let whole = if den > 0 {
        den
    } else {
        -den
    };
    let pa = if den > 0 {
        along_a
    } else {
        -along_a
    };
    let pb = if den > 0 {
        along_b
    } else {
        -along_b
    };
    assert(whole * (start - from) == pa * dir - pb * reach) by (nonlinear_arith)
        requires
            den * (start - from) == along_a * dir - along_b * reach,
            den > 0 && whole == den && pa == along_a && pb == along_b || den < 0 && whole == -den
                && pa == -along_a && pb == -along_b,
    ;
    lemma_part_way(whole, pa, from, dir, a.min as int, a.max as int);
    lemma_part_way(whole, pb, start, reach, b.min as int, b.max as int);
    assert(whole * from + pa * dir == whole * start + pb * reach) by (nonlinear_arith)
        requires
            whole * (start - from) == pa * dir - pb * reach,
    ;
    lemma_common_point(whole, whole * from + pa * dir, a, b);
}

/// Along one axis: a point that, moved back along the step, meets a
/// segment within the range `inner`, lies in that range stretched by the step.
pub proof fn lemma_point_in_sweep(
    den: int,
    along_a: int,
    along_b: int,
    point: int,
    step: int,
    start: int,
    reach: int,
    inner: Interval,
    outer: Interval,
)
    requires
        den > 0 && 0 <= along_a <= den && 0 <= along_b <= den || den < 0 && den <= along_a <= 0
            && den <= along_b <= 0,
        den * (start - point) == along_a * (-step) - along_b * reach,
        inner.min <= start <= inner.max,
        inner.min <= start + reach <= inner.max,
        outer.min <= inner.min,
        outer.min <= inner.min + step,
        inner.max <= outer.max,
        inner.max + step <= outer.max,
    ensures
        outer.min <= point <= outer.max,
{
    let whole = if den > 0 {
        den
    } else {
        -den
    };
    let pa = if den > 0 {
        along_a
    } else {
        -along_a
    };
    let pb = if den > 0 {
        along_b
    } else {
        -along_b
    };
    assert(whole * point == whole * start + pb * reach + pa * step) by (nonlinear_arith)
        requires
            den * (start - point) == along_a * (-step) - along_b * reach,
            den > 0 && whole == den && pa == along_a && pb == along_b || den < 0 && whole == -den
                && pa == -along_a && pb == -along_b,
    ;
    lemma_part_way(whole, pb, start, reach, inner.min as int, inner.max as int);
    let low = if step < 0 {
        step
    } else {
        0
    };
    let high = if step > 0 {
        step
    } else {
        0
    };
    lemma_part_way(whole, pa, 0, step, low, high);
    assert(whole * outer.min <= whole * (inner.min + low)) by (nonlinear_arith)
        requires
            whole > 0,
            outer.min <= inner.min + low,
    ;
    assert(whole * (inner.max + high) <= whole * outer.max) by (nonlinear_arith)
        requires
            whole > 0,
            inner.max + high <= outer.max,
    ;
    assert(whole * (inner.min + low) == whole * inner.min + whole * low) by (nonlinear_arith);
    assert(whole * (inner.max + high) == whole * inner.max + whole * high) by (nonlinear_arith);
    assert(outer.min <= point) by (nonlinear_arith)
        requires
            whole > 0,
            whole * outer.min <= whole * point,
    ;
    assert(point <= outer.max) by (nonlinear_arith)
        requires
            whole > 0,
            whole * point <= whole * outer.max,
    ;
}

/// The rectangle has a side of no less than nothing each way.
pub open spec fn is_box(b: AABB2) -> bool {
    b.x.min <= b.x.max && b.y.min <= b.y.max
}

/// A box that runs into a wall sweeps a rectangle that overlaps the wall's.
pub proof fn lemma_running_into_overlaps(b: AABB2, step: Vec2, linedef: Linedef, i: int)
    requires
        0 <= i < 4,
        b.wf(),
        is_box(b),
        step.wf(),
        linedef.wf(),
        stays_in_range(b, step),
        runs_into_at(b, step, linedef, i),
    ensures
        swept(b, step).spec_overlaps(linedef.bbox),
{
    let sw = swept(b, step);
    let lb = linedef.bbox;
    let wall = linedef.line;
    let corner = b.spec_corners()[i];
    let next = b.spec_corners()[(i + 1) % 4];
    let side = edge(b, i);
    assert(side.point == corner);
    assert(side.dir.x == next.x - corner.x && side.dir.y == next.y - corner.y);
    assert(sw.x.min <= b.x.min && sw.x.min <= b.x.min + step.x);
    assert(b.x.max <= sw.x.max && b.x.max + step.x <= sw.x.max);
    assert(sw.y.min <= b.y.min && sw.y.min <= b.y.min + step.y);
    assert(b.y.max <= sw.y.max && b.y.max + step.y <= sw.y.max);
    let mover = Line2 { point: corner, dir: step };
    if crosses(mover, wall) {
        let den = cross2(mover.dir, wall.dir);
        let diff = wall.point.spec_minus(mover.point);
        let along_a = cross2(diff, wall.dir);
        let along_b = cross2(diff, mover.dir);
        lemma_crossing_point(mover, wall);
        lemma_paths_meet(
            den,
            along_a,
            along_b,
            corner.x as int,
            step.x as int,
            wall.point.x as int,
            wall.dir.x as int,
            sw.x,
            lb.x,
        );
        lemma_paths_meet(
            den,
            along_a,
            along_b,
            corner.y as int,
            step.y as int,
            wall.point.y as int,
            wall.dir.y as int,
            sw.y,
            lb.y,
        );
    } else {
        let vertex = if crosses(Line2 { point: wall.point, dir: step.spec_neg() }, side) {
            wall.point
        } else {
            wall.end()
        };
        let back = Line2 { point: vertex, dir: step.spec_neg() };
        assert(crosses(back, side));
        let den = cross2(back.dir, side.dir);
        let diff = side.point.spec_minus(back.point);
        let along_a = cross2(diff, side.dir);
        let along_b = cross2(diff, back.dir);
        lemma_crossing_point(back, side);
        lemma_point_in_sweep(
            den,
            along_a,
            along_b,
            vertex.x as int,
            step.x as int,
            corner.x as int,
            side.dir.x as int,
            b.x,
            sw.x,
        );
        lemma_point_in_sweep(
            den,
            along_a,
            along_b,
            vertex.y as int,
            step.y as int,
            corner.y as int,
            side.dir.y as int,
            b.y,
            sw.y,
        );
        assert(lb.contains(vertex));
    }
}

/// A box that runs into a wall within its step is found to hit it before
/// the end of the step; a wall with one side stops every category.
pub proof fn lemma_wall_in_the_way_is_hit(
    map_dynamic: MapDynamic,
    linedef: Linedef,
    entity: AABB3,
    step: Vec3,
)
    requires
        entity.wf(),
        is_box(entity.plan()),
        step.wf(),
        linedef.wf(),
        stays_in_range(entity.plan(), step.xy()),
        runs_into(entity.plan(), step.xy(), linedef),
    ensures
        spec_trace_linedef(map_dynamic, linedef, entity, step) matches Some(h) && 0 <= h.fraction
            <= ONE && (linedef.sidedefs[1] is None ==> h.solid_mask == SolidMask { bits: 3 }),
{
    let b = entity.plan();
    let i = choose|i: int| 0 <= i < 4 && #[trigger] runs_into_at(b, step.xy(), linedef, i);
    lemma_running_into_overlaps(b, step.xy(), linedef, i);
    lemma_running_into_is_hit(b, step.xy(), linedef);
}

impl Scene {
    /// A wall with one side, which stops every category, is in the way of
    /// the box on its step: a corner of the box would run into it, or an end
    /// of it into an edge of the box.
    pub open spec fn wall_in_the_way(self, entity: AABB3, step: Vec3) -> bool {
        exists|i: int|
            0 <= i < self.map.linedefs.len() && (#[trigger] self.map.linedefs[i]).sidedefs[1]
                is None && runs_into(entity.plan(), step.xy(), self.map.linedefs[i])
    }

    /// A step with a one-sided wall in its way is never free: the trace
    /// finds something that stops the mover, whatever categories of the two
    /// stop it.
    pub proof fn lemma_walls_stop(self, entity: AABB3, step: Vec3, mask: SolidMask)
        requires
            self.wf(),
            entity.wf(),
            is_box(entity.plan()),
            step.wf(),
            stays_in_range(entity.plan(), step.xy()),
            mask.spec_intersects(SolidMask { bits: 3 }),
            self.wall_in_the_way(entity, step),
        ensures
            self.spec_trace(entity, step, mask) is Some,
    {
        let i = choose|i: int|
            0 <= i < self.map.linedefs.len() && (#[trigger] self.map.linedefs[i]).sidedefs[1]
                is None && runs_into(entity.plan(), step.xy(), self.map.linedefs[i]);
        let linedef = self.map.linedefs[i];
        lemma_wall_in_the_way_is_hit(self.map_dynamic, linedef, entity, step);
        let k = choose|k: int| 0 <= k < 4 && #[trigger] runs_into_at(
            entity.plan(),
            step.xy(),
            linedef,
            k,
        );
        assert(step.x != 0 || step.y != 0) by {
            if step.x == 0 && step.y == 0 {
                let s = step.xy();
                let n = s.spec_neg();
                assert(s.x == 0 && s.y == 0 && n.x == 0 && n.y == 0);
                assert(forall|d: Vec2| cross2(s, d) == 0) by (nonlinear_arith)
                    requires
                        s.x == 0 && s.y == 0,
                ;
                assert(forall|d: Vec2| cross2(n, d) == 0) by (nonlinear_arith)
                    requires
                        n.x == 0 && n.y == 0,
                ;
            }
        }
        let walls = self.linedef_hits(entity, step);
        let all = self.all_hits(entity, step);
        assert(all[i] == walls[i]);
        lemma_nearest_is_least(all, mask, i);
    }

    /// A free step takes no corner of the box across a one-sided wall: a
    /// corner that begins in front of the wall's line, and whose path meets
    /// that line between the wall's ends if it meets it at all, ends in front
    /// of it; one that begins behind it ends behind it.
    pub proof fn lemma_corner_keeps_its_side(
        self,
        entity: AABB3,
        step: Vec3,
        mask: SolidMask,
        i: int,
        k: int,
    )
        requires
            self.wf(),
            entity.wf(),
            is_box(entity.plan()),
            step.wf(),
            stays_in_range(entity.plan(), step.xy()),
            mask.spec_intersects(SolidMask { bits: 3 }),
            self.spec_trace(entity, step, mask) is None,
            0 <= i < self.map.linedefs.len(),
            self.map.linedefs[i].sidedefs[1] is None,
            0 <= k < 4,
            meets_within(self.map.linedefs[i].line, entity.plan().spec_corners()[k], step.xy()),
        ensures
            ({
                let wall = self.map.linedefs[i].line;
                let c = entity.plan().spec_corners()[k];
                &&& side_of(wall, c.x as int, c.y as int) > 0 ==> side_of(
                    wall,
                    c.x + step.x,
                    c.y + step.y,
                ) > 0
                &&& side_of(wall, c.x as int, c.y as int) < 0 ==> side_of(
                    wall,
                    c.x + step.x,
                    c.y + step.y,
                ) < 0
            }),
    {
        let linedef = self.map.linedefs[i];
        let wall = linedef.line;
        let c = entity.plan().spec_corners()[k];
        let s = step.xy();
        let path = Line2 { point: c, dir: s };
        let before = side_of(wall, c.x as int, c.y as int);
        let after = side_of(wall, c.x + step.x, c.y + step.y);
        let den = cross2(s, wall.dir);
        assert(after == before + den) by (nonlinear_arith)
            requires
                before == (c.x - wall.point.x) * wall.dir.y - (c.y - wall.point.y) * wall.dir.x,
                after == (c.x + s.x - wall.point.x) * wall.dir.y - (c.y + s.y - wall.point.y)
                    * wall.dir.x,
                den == s.x * wall.dir.y - s.y * wall.dir.x,
        ;
        let diff = wall.point.spec_minus(c);
        assert(cross2(diff, wall.dir) == -before) by (nonlinear_arith)
            requires
                before == (c.x - wall.point.x) * wall.dir.y - (c.y - wall.point.y) * wall.dir.x,
                cross2(diff, wall.dir) == (wall.point.x - c.x) * wall.dir.y - (wall.point.y - c.y)
                    * wall.dir.x,
        ;
        if (before > 0 && after <= 0) || (before < 0 && after >= 0) {
            assert(crosses(path, wall));
            assert(runs_into_at(entity.plan(), s, linedef, k));
            assert(runs_into(entity.plan(), s, linedef));
            assert(self.map.linedefs[i].sidedefs[1] is None);
            assert(self.wall_in_the_way(entity, step));
            self.lemma_walls_stop(entity, step, mask);
        }
    }

    /// A free step leaves a box on its side of a one-sided wall: a box that
    /// stands wholly in front of the wall's line, and does not pass beside
    /// an end of the wall, stands wholly in front of the line after the step.
    pub proof fn lemma_box_keeps_its_side(
        self,
        entity: AABB3,
        step: Vec3,
        mask: SolidMask,
        i: int,
    )
        requires
            self.wf(),
            entity.wf(),
            is_box(entity.plan()),
            step.wf(),
            stays_in_range(entity.plan(), step.xy()),
            mask.spec_intersects(SolidMask { bits: 3 }),
            self.spec_trace(entity, step, mask) is None,
            0 <= i < self.map.linedefs.len(),
            self.map.linedefs[i].sidedefs[1] is None,
            forall|k: int|
                0 <= k < 4 ==> {
                    let c = #[trigger] entity.plan().spec_corners()[k];
                    &&& side_of(self.map.linedefs[i].line, c.x as int, c.y as int) > 0
                    &&& meets_within(self.map.linedefs[i].line, c, step.xy())
                },
        ensures
            forall|k: int|
                0 <= k < 4 ==> {
                    let c = #[trigger] entity.plan().spec_corners()[k];
                    side_of(self.map.linedefs[i].line, c.x + step.x, c.y + step.y) > 0
                },
    {
        assert forall|k: int| 0 <= k < 4 implies {
            let c = #[trigger] entity.plan().spec_corners()[k];
            side_of(self.map.linedefs[i].line, c.x + step.x, c.y + step.y) > 0
        } by {
            self.lemma_corner_keeps_its_side(entity, step, mask, i, k);
        }
    }

    /// No step through a wall: wherever a box ends up, it either has stayed
    /// where it was or has taken one step, and that step was free of
    /// whatever stops movers that are no monsters; so, if the step kept the
    /// box in the coordinate range, no one-sided wall was in its way.
    pub proof fn lemma_no_step_through_walls(
        self,
        local: AABB3,
        position: Vec3,
        velocity: Vec3,
        initial: Vec3,
        delta: u64,
        tries: nat,
    )
        requires
            self.wf(),
            is_box(local.spec_offset(position).plan()),
        ensures
            ({
                let end = self.advance(local, position, velocity, initial, delta, tries);
                let here = local.spec_offset(position);
                end.0 == position || exists|v: Vec3|
                    {
                        let step = #[trigger] step_of(v, delta);
                        &&& end.0 == position.spec_plus(step)
                        &&& self.spec_trace(here, step, SolidMask { bits: 1 }) is None
                        &&& stays_in_range(here.plan(), step.xy()) ==> !self.wall_in_the_way(
                            here,
                            step,
                        )
                    }
            }),
        decreases tries,
    {
        if tries > 0 {
            let step = step_of(velocity, delta);
            let here = local.spec_offset(position);
            match self.spec_trace(here, step, SolidMask { bits: 1 }) {
                Some(hit) => {
                    let turned = spec_deflected(velocity, hit.normal);
                    if dot3(turned, initial) > 0 {
                        self.lemma_no_step_through_walls(
                            local,
                            position,
                            turned,
                            initial,
                            delta,
                            (tries - 1) as nat,
                        );
                    }
                },
                None => {
                    assert(SolidMask { bits: 1 }.spec_intersects(SolidMask { bits: 3 })) by {
                        assert(1u16 & 3u16 != 0) by (bit_vector);
                    }
                    if stays_in_range(here.plan(), step.xy()) && self.wall_in_the_way(here, step) {
                        self.lemma_walls_stop(here, step, SolidMask { bits: 1 });
                    }
                    assert(step_of(velocity, delta) == step);
                },
            }
        }
    }
}

} // verus!
