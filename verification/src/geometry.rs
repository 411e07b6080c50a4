use vstd::prelude::*;
use crate::fixed::{clamp_coord, div_floor, in_range, lemma_mul_bound, max, min, mul_wide, saturate, LIMIT, ONE};

verus! {

/// A value that is the sum or difference of at most four coordinates.
pub open spec fn small(x: int) -> bool {
    -0x400_0000_0000 <= x <= 0x400_0000_0000
}

/// The product of two small values stays far inside 128 bits.
pub proof fn lemma_mul_small(a: int, b: int)
    requires
        small(a),
        small(b),
    ensures
        -0x10_0000_0000_0000_0000_0000 <= a * b <= 0x10_0000_0000_0000_0000_0000,
{
    lemma_mul_bound(a, b, 0x400_0000_0000, 0x400_0000_0000);
}

/// The product of two coordinates.
pub proof fn lemma_mul_in_range(a: int, b: int)
    requires
        in_range(a),
        in_range(b),
    ensures
        -0x1_0000_0000_0000_0000_0000 <= a * b <= 0x1_0000_0000_0000_0000_0000,
{
    lemma_mul_bound(a, b, 0x100_0000_0000, 0x100_0000_0000);
}

/// Which side of a directed line: `Right` is the front, `Left` the back.
#[derive(Clone, Copy, Debug, PartialEq, Eq, Structural)]
pub enum Side {
    Right,
    Left,
}

impl Side {
    /// Position of this side in a two-element array.
    pub fn index(self) -> (i: usize)
        ensures
            i == (if self == Side::Right { 0int } else { 1int }),
    {
        match self {
            Side::Right => 0,
            Side::Left => 1,
        }
    }
}

#[derive(Clone, Copy, Debug, PartialEq, Eq, Structural)]
pub struct Vec2 {
    pub x: i64,
    pub y: i64,
}

#[derive(Clone, Copy, Debug, PartialEq, Eq, Structural)]
pub struct Vec3 {
    pub x: i64,
    pub y: i64,
    pub z: i64,
}

/// `square` is the square of the length of a unit vector, up to what
/// rounding its components can change: within a hundredth of it.
pub open spec fn unit_square(square: int) -> bool {
    429496729600 <= 101 * square && 100 * square <= 433791696896
}

pub open spec fn dot2(a: Vec2, b: Vec2) -> int {
    a.x * b.x + a.y * b.y
}

pub open spec fn cross2(a: Vec2, b: Vec2) -> int {
    a.x * b.y - a.y * b.x
}

pub open spec fn dot3(a: Vec3, b: Vec3) -> int {
    a.x * b.x + a.y * b.y + a.z * b.z
}

pub open spec fn add_sat(a: int, b: int) -> int {
    saturate(a + b)
}

/// Sum of two coordinates, stopping at the edge of the coordinate range.
pub fn sat_add(a: i64, b: i64) -> (r: i64)
    ensures
        r == add_sat(a as int, b as int),
        in_range(r as int),
{
    clamp_coord(a as i128 + b as i128)
}

impl Vec2 {
    pub open spec fn wf(self) -> bool {
        in_range(self.x as int) && in_range(self.y as int)
    }

    pub open spec fn is_small(self) -> bool {
        small(self.x as int) && small(self.y as int)
    }

    pub fn is_valid(&self) -> (b: bool)
        ensures
            b == self.wf(),
    {
        -LIMIT <= self.x && self.x <= LIMIT && -LIMIT <= self.y && self.y <= LIMIT
    }

    pub fn new(x: i64, y: i64) -> (v: Vec2)
        ensures
            v == (Vec2 { x, y }),
    {
        Vec2 { x, y }
    }

    /// The vector has the length of a unit, up to rounding.
    pub open spec fn is_unit(self) -> bool {
        unit_square(dot2(self, self))
    }

    /// Whether the vector has the length of a unit, up to rounding.
    pub fn has_unit_length(self) -> (b: bool)
        requires
            self.is_small(),
        ensures
            b == self.is_unit(),
    {
        let square: i128 = self.dot(self);
        429496729600 <= 101 * square && 100 * square <= 433791696896
    }

    pub fn dot(self, other: Vec2) -> (r: i128)
        requires
            self.is_small(),
            other.is_small(),
        ensures
            r == dot2(self, other),
            -0x20_0000_0000_0000_0000_0000 <= r <= 0x20_0000_0000_0000_0000_0000,
    {
        proof {
            lemma_mul_small(self.x as int, other.x as int);
            lemma_mul_small(self.y as int, other.y as int);
        }
        mul_wide(self.x, other.x) + mul_wide(self.y, other.y)
    }

    pub fn cross(self, other: Vec2) -> (r: i128)
        requires
            self.is_small(),
            other.is_small(),
        ensures
            r == cross2(self, other),
            -0x20_0000_0000_0000_0000_0000 <= r <= 0x20_0000_0000_0000_0000_0000,
    {
        proof {
            lemma_mul_small(self.x as int, other.y as int);
            lemma_mul_small(self.y as int, other.x as int);
        }
        mul_wide(self.x, other.y) - mul_wide(self.y, other.x)
    }

    pub open spec fn spec_minus(self, other: Vec2) -> Vec2 {
        Vec2 { x: (self.x - other.x) as i64, y: (self.y - other.y) as i64 }
    }

    /// Componentwise difference; exact for coordinates in range.
    pub fn minus(self, other: Vec2) -> (r: Vec2)
        requires
            self.wf(),
            other.wf(),
        ensures
            r.x == self.x - other.x,
            r.y == self.y - other.y,
            r == self.spec_minus(other),
    {
        Vec2 { x: self.x - other.x, y: self.y - other.y }
    }

    pub open spec fn spec_plus(self, other: Vec2) -> Vec2 {
        Vec2 {
            x: add_sat(self.x as int, other.x as int) as i64,
            y: add_sat(self.y as int, other.y as int) as i64,
        }
    }

    /// Componentwise saturating sum.
    pub fn plus(self, other: Vec2) -> (r: Vec2)
        ensures
            r == self.spec_plus(other),
            r.wf(),
    {
        Vec2 { x: sat_add(self.x, other.x), y: sat_add(self.y, other.y) }
    }

    pub open spec fn spec_neg(self) -> Vec2 {
        Vec2 { x: (-self.x) as i64, y: (-self.y) as i64 }
    }

    pub fn neg(self) -> (r: Vec2)
        requires
            self.wf(),
        ensures
            r == self.spec_neg(),
            r.x == -self.x,
            r.y == -self.y,
            r.wf(),
    {
        Vec2 { x: -self.x, y: -self.y }
    }
}

impl Vec3 {
    pub open spec fn wf(self) -> bool {
        in_range(self.x as int) && in_range(self.y as int) && in_range(self.z as int)
    }

    pub open spec fn is_zero(self) -> bool {
        self.x == 0 && self.y == 0 && self.z == 0
    }

    /// The vector can be a direction: it has the length of a unit, up to
    /// rounding, and no component is longer than a unit.
    pub open spec fn is_direction(self) -> bool {
        &&& -ONE <= self.x <= ONE
        &&& -ONE <= self.y <= ONE
        &&& -ONE <= self.z <= ONE
        &&& unit_square(dot3(self, self))
    }

    pub fn new(x: i64, y: i64, z: i64) -> (v: Vec3)
        ensures
            v == (Vec3 { x, y, z }),
    {
        Vec3 { x, y, z }
    }

    pub fn is_valid(&self) -> (b: bool)
        ensures
            b == self.wf(),
    {
        -LIMIT <= self.x && self.x <= LIMIT && -LIMIT <= self.y && self.y <= LIMIT && -LIMIT
            <= self.z && self.z <= LIMIT
    }

    pub fn zero() -> (v: Vec3)
        ensures
            v == (Vec3 { x: 0, y: 0, z: 0 }),
    {
        Vec3 { x: 0, y: 0, z: 0 }
    }

    pub open spec fn xy(self) -> Vec2 {
        Vec2 { x: self.x, y: self.y }
    }

    pub fn to_xy(self) -> (v: Vec2)
        ensures
            v == self.xy(),
    {
        Vec2 { x: self.x, y: self.y }
    }

    pub fn dot(self, other: Vec3) -> (r: i128)
        requires
            self.wf(),
            other.wf(),
        ensures
            r == dot3(self, other),
            -0x3_0000_0000_0000_0000_0000 <= r <= 0x3_0000_0000_0000_0000_0000,
    {
        proof {
            lemma_mul_in_range(self.x as int, other.x as int);
            lemma_mul_in_range(self.y as int, other.y as int);
            lemma_mul_in_range(self.z as int, other.z as int);
        }
        mul_wide(self.x, other.x) + mul_wide(self.y, other.y) + mul_wide(self.z, other.z)
    }

    pub open spec fn spec_plus(self, other: Vec3) -> Vec3 {
        Vec3 {
            x: add_sat(self.x as int, other.x as int) as i64,
            y: add_sat(self.y as int, other.y as int) as i64,
            z: add_sat(self.z as int, other.z as int) as i64,
        }
    }

    /// Componentwise saturating sum.
    pub fn plus(self, other: Vec3) -> (r: Vec3)
        ensures
            r == self.spec_plus(other),
            r.wf(),
    {
        Vec3 {
            x: sat_add(self.x, other.x),
            y: sat_add(self.y, other.y),
            z: sat_add(self.z, other.z),
        }
    }

    pub open spec fn spec_neg(self) -> Vec3 {
        Vec3 { x: (-self.x) as i64, y: (-self.y) as i64, z: (-self.z) as i64 }
    }

    pub fn neg(self) -> (r: Vec3)
        requires
            self.wf(),
        ensures
            r == self.spec_neg(),
            r.wf(),
    {
        Vec3 { x: -self.x, y: -self.y, z: -self.z }
    }
}

/// `step * fraction / ONE`, rounded down: the part of a step covered at a
/// time fraction.
pub open spec fn scale_by(step: int, fraction: int) -> int {
    step * fraction / (ONE as int)
}

pub fn scale_coord(step: i64, fraction: i64) -> (r: i64)
    requires
        in_range(step as int),
        0 <= fraction <= ONE,
    ensures
        r == scale_by(step as int, fraction as int),
        in_range(r as int),
        step >= 0 ==> 0 <= r <= step,
        step <= 0 ==> step <= r <= 0,
{
    let p: i128 = mul_wide(step, fraction);
    proof {
        lemma_mul_bound(step as int, fraction as int, 0x100_0000_0000, 65536);
    }
    let q: i128 = div_floor(p, ONE as i128);
    proof {
        crate::fixed::lemma_div_floor_bounds(p as int, ONE as int);
        let s = step as int;
        let f = fraction as int;
        if s >= 0 {
            assert(0 <= s * f <= s * ONE) by (nonlinear_arith)
                requires
                    s >= 0,
                    0 <= f <= ONE,
            ;
            assert(q * ONE <= s * ONE);
        } else {
            assert(s * ONE <= s * f <= 0) by (nonlinear_arith)
                requires
                    s <= 0,
                    0 <= f <= ONE,
            ;
            assert((q + 1) * ONE > s * ONE);
        }
    }
    q as i64
}

impl Vec3 {
    pub open spec fn spec_scale(self, fraction: int) -> Vec3 {
        Vec3 {
            x: scale_by(self.x as int, fraction) as i64,
            y: scale_by(self.y as int, fraction) as i64,
            z: scale_by(self.z as int, fraction) as i64,
        }
    }

    /// The part of this step covered at `fraction` of the way.
    pub fn scale(self, fraction: i64) -> (r: Vec3)
        requires
            self.wf(),
            0 <= fraction <= ONE,
        ensures
            r == self.spec_scale(fraction as int),
            r.wf(),
    {
        Vec3 {
            x: scale_coord(self.x, fraction),
            y: scale_coord(self.y, fraction),
            z: scale_coord(self.z, fraction),
        }
    }
}

/// A closed range of coordinates; empty when `min` exceeds `max`.
#[derive(Clone, Copy, Debug, PartialEq, Eq, Structural)]
pub struct Interval {
    pub min: i64,
    pub max: i64,
}

impl Interval {
    pub open spec fn wf(self) -> bool {
        in_range(self.min as int) && in_range(self.max as int)
    }

    pub open spec fn spec_is_empty(self) -> bool {
        self.min > self.max
    }

    /// The two ranges share at least one value (touching ends count).
    pub open spec fn spec_overlaps(self, other: Interval) -> bool {
        self.min <= other.max && other.min <= self.max
    }

    pub open spec fn spec_intersection(self, other: Interval) -> Interval {
        Interval {
            min: max(self.min as int, other.min as int) as i64,
            max: min(self.max as int, other.max as int) as i64,
        }
    }

    pub open spec fn spec_union(self, other: Interval) -> Interval {
        Interval {
            min: min(self.min as int, other.min as int) as i64,
            max: max(self.max as int, other.max as int) as i64,
        }
    }

    pub open spec fn spec_is_inside(self, outer: Interval) -> bool {
        outer.min <= self.min && self.max <= outer.max
    }

    pub open spec fn spec_offset(self, by: int) -> Interval {
        Interval {
            min: add_sat(self.min as int, by) as i64,
            max: add_sat(self.max as int, by) as i64,
        }
    }

    pub open spec fn contains(self, v: int) -> bool {
        self.min <= v <= self.max
    }

    pub fn is_valid(&self) -> (b: bool)
        ensures
            b == self.wf(),
    {
        -LIMIT <= self.min && self.min <= LIMIT && -LIMIT <= self.max && self.max <= LIMIT
    }

    pub fn new(min: i64, max: i64) -> (r: Interval)
        ensures
            r == (Interval { min, max }),
    {
        Interval { min, max }
    }

    pub fn is_empty(&self) -> (b: bool)
        ensures
            b == self.spec_is_empty(),
    {
        self.min > self.max
    }

    pub fn overlaps(&self, other: Interval) -> (b: bool)
        ensures
            b == self.spec_overlaps(other),
    {
        self.min <= other.max && other.min <= self.max
    }

    pub fn intersection(&self, other: Interval) -> (r: Interval)
        ensures
            r == self.spec_intersection(other),
            self.wf() && other.wf() ==> r.wf(),
    {
        Interval {
            min: if self.min >= other.min { self.min } else { other.min },
            max: if self.max <= other.max { self.max } else { other.max },
        }
    }

    pub fn union(&self, other: Interval) -> (r: Interval)
        ensures
            r == self.spec_union(other),
            self.wf() && other.wf() ==> r.wf(),
    {
        Interval {
            min: if self.min <= other.min { self.min } else { other.min },
            max: if self.max >= other.max { self.max } else { other.max },
        }
    }

    pub fn is_inside(&self, outer: Interval) -> (b: bool)
        ensures
            b == self.spec_is_inside(outer),
    {
        outer.min <= self.min && self.max <= outer.max
    }

    /// The range moved by `by`, each end stopping at the coordinate limit.
    pub fn offset(&self, by: i64) -> (r: Interval)
        ensures
            r == self.spec_offset(by as int),
            r.wf(),
    {
        Interval { min: sat_add(self.min, by), max: sat_add(self.max, by) }
    }
}

/// An axis-aligned rectangle in plan view.
#[derive(Clone, Copy, Debug, PartialEq, Eq, Structural)]
pub struct AABB2 {
    pub x: Interval,
    pub y: Interval,
}

/// An axis-aligned box.
#[derive(Clone, Copy, Debug, PartialEq, Eq, Structural)]
pub struct AABB3 {
    pub x: Interval,
    pub y: Interval,
    pub z: Interval,
}

impl AABB2 {
    pub open spec fn wf(self) -> bool {
        self.x.wf() && self.y.wf()
    }

    pub open spec fn spec_overlaps(self, other: AABB2) -> bool {
        self.x.spec_overlaps(other.x) && self.y.spec_overlaps(other.y)
    }

    pub open spec fn spec_union(self, other: AABB2) -> AABB2 {
        AABB2 { x: self.x.spec_union(other.x), y: self.y.spec_union(other.y) }
    }

    pub open spec fn spec_offset(self, by: Vec2) -> AABB2 {
        AABB2 { x: self.x.spec_offset(by.x as int), y: self.y.spec_offset(by.y as int) }
    }

    pub open spec fn contains(self, p: Vec2) -> bool {
        self.x.contains(p.x as int) && self.y.contains(p.y as int)
    }

    /// The rectangle that holds no point and is the unit of `union`.
    pub open spec fn spec_empty() -> AABB2 {
        AABB2 {
            x: Interval { min: LIMIT, max: (-LIMIT) as i64 },
            y: Interval { min: LIMIT, max: (-LIMIT) as i64 },
        }
    }

    pub open spec fn spec_add_point(self, p: Vec2) -> AABB2 {
        self.spec_union(AABB2 {
            x: Interval { min: p.x, max: p.x },
            y: Interval { min: p.y, max: p.y },
        })
    }

    /// The four corners in the order min-min, min-max, max-max, max-min.
    pub open spec fn spec_corners(self) -> Seq<Vec2> {
        seq![
            Vec2 { x: self.x.min, y: self.y.min },
            Vec2 { x: self.x.min, y: self.y.max },
            Vec2 { x: self.x.max, y: self.y.max },
            Vec2 { x: self.x.max, y: self.y.min },
        ]
    }

    pub fn is_valid(&self) -> (b: bool)
        ensures
            b == self.wf(),
    {
        self.x.is_valid() && self.y.is_valid()
    }

    pub fn empty() -> (r: AABB2)
        ensures
            r == Self::spec_empty(),
            r.wf(),
    {
        AABB2 {
            x: Interval { min: LIMIT, max: -LIMIT },
            y: Interval { min: LIMIT, max: -LIMIT },
        }
    }

    pub fn add_point(&mut self, p: Vec2)
        ensures
            *final(self) == old(self).spec_add_point(p),
            old(self).wf() && p.wf() ==> final(self).wf(),
    {
        let px = Interval { min: p.x, max: p.x };
        let py = Interval { min: p.y, max: p.y };
        self.x = self.x.union(px);
        self.y = self.y.union(py);
    }

    pub fn overlaps(&self, other: &AABB2) -> (b: bool)
        ensures
            b == self.spec_overlaps(*other),
    {
        self.x.overlaps(other.x) && self.y.overlaps(other.y)
    }

    pub fn union(&self, other: &AABB2) -> (r: AABB2)
        ensures
            r == self.spec_union(*other),
            self.wf() && other.wf() ==> r.wf(),
    {
        AABB2 { x: self.x.union(other.x), y: self.y.union(other.y) }
    }

    pub fn offset(&self, by: Vec2) -> (r: AABB2)
        ensures
            r == self.spec_offset(by),
            r.wf(),
    {
        AABB2 { x: self.x.offset(by.x), y: self.y.offset(by.y) }
    }

    pub fn corners(&self) -> (r: [Vec2; 4])
        ensures
            r@ == self.spec_corners(),
    {
        let r = [
            Vec2 { x: self.x.min, y: self.y.min },
            Vec2 { x: self.x.min, y: self.y.max },
            Vec2 { x: self.x.max, y: self.y.max },
            Vec2 { x: self.x.max, y: self.y.min },
        ];
        assert(r@ =~= self.spec_corners());
        r
    }
}

impl AABB3 {
    pub open spec fn wf(self) -> bool {
        self.x.wf() && self.y.wf() && self.z.wf()
    }

    /// The box of an upright cylinder standing on the origin.
    pub open spec fn spec_from_radius_height(radius: i64, height: i64) -> AABB3 {
        AABB3 {
            x: Interval { min: (-radius) as i64, max: radius },
            y: Interval { min: (-radius) as i64, max: radius },
            z: Interval { min: 0, max: height },
        }
    }

    pub open spec fn spec_offset(self, by: Vec3) -> AABB3 {
        AABB3 {
            x: self.x.spec_offset(by.x as int),
            y: self.y.spec_offset(by.y as int),
            z: self.z.spec_offset(by.z as int),
        }
    }

    pub open spec fn plan(self) -> AABB2 {
        AABB2 { x: self.x, y: self.y }
    }

    pub fn is_valid(&self) -> (b: bool)
        ensures
            b == self.wf(),
    {
        self.x.is_valid() && self.y.is_valid() && self.z.is_valid()
    }

    pub fn from_radius_height(radius: i64, height: i64) -> (r: AABB3)
        requires
            in_range(radius as int),
        ensures
            r == Self::spec_from_radius_height(radius, height),
            in_range(height as int) ==> r.wf(),
    {
        AABB3 {
            x: Interval { min: -radius, max: radius },
            y: Interval { min: -radius, max: radius },
            z: Interval { min: 0, max: height },
        }
    }

    pub fn offset(&self, by: Vec3) -> (r: AABB3)
        ensures
            r == self.spec_offset(by),
            r.wf(),
    {
        AABB3 { x: self.x.offset(by.x), y: self.y.offset(by.y), z: self.z.offset(by.z) }
    }

    /// The plan-view rectangle under this box.
    pub fn to_plan(&self) -> (r: AABB2)
        ensures
            r == self.plan(),
    {
        AABB2 { x: self.x, y: self.y }
    }
}

/// A directed segment from `point` to `point + dir`.
#[derive(Clone, Copy, Debug, PartialEq, Eq, Structural)]
pub struct Line2 {
    pub point: Vec2,
    pub dir: Vec2,
}

/// `num / den` as a fixed-point number rounded down, for a non-zero `den`.
pub open spec fn ratio(num: int, den: int) -> int {
    if den > 0 {
        num * ONE / den
    } else {
        (-num) * ONE / (-den)
    }
}

pub fn fixed_ratio(num: i128, den: i128) -> (r: i128)
    requires
        den != 0,
        -0x20_0000_0000_0000_0000_0000 <= num <= 0x20_0000_0000_0000_0000_0000,
        -0x20_0000_0000_0000_0000_0000 <= den <= 0x20_0000_0000_0000_0000_0000,
    ensures
        r == ratio(num as int, den as int),
{
    if den > 0 {
        div_floor(num * 65536, den)
    } else {
        div_floor((-num) * 65536, -den)
    }
}

impl Line2 {
    pub open spec fn wf(self) -> bool {
        self.point.wf() && self.dir.wf()
    }

    pub open spec fn end(self) -> Vec2 {
        Vec2 { x: (self.point.x + self.dir.x) as i64, y: (self.point.y + self.dir.y) as i64 }
    }

    /// Where the two lines, taken as infinite, cross: the position along
    /// `self` and the position along `other`, each as a fixed-point multiple
    /// of the line's own direction. `None` when they are parallel.
    pub open spec fn spec_intersect(self, other: Line2) -> Option<(int, int)> {
        let den = cross2(self.dir, other.dir);
        let diff = other.point.spec_minus(self.point);
        if den == 0 {
            None
        } else {
            Some((ratio(cross2(diff, other.dir), den), ratio(cross2(diff, self.dir), den)))
        }
    }

    pub fn is_valid(&self) -> (b: bool)
        ensures
            b == self.wf(),
    {
        self.point.is_valid() && self.dir.is_valid()
    }

    pub fn new(point: Vec2, dir: Vec2) -> (r: Line2)
        ensures
            r == (Line2 { point, dir }),
    {
        Line2 { point, dir }
    }

    pub fn intersect(&self, other: &Line2) -> (r: Option<(i128, i128)>)
        requires
            self.point.wf(),
            other.point.wf(),
            self.dir.is_small(),
            other.dir.is_small(),
        ensures
            r is Some == self.spec_intersect(*other) is Some,
            r matches Some((t, u)) ==> self.spec_intersect(*other) == Some((t as int, u as int)),
    {
        let den: i128 = self.dir.cross(other.dir);
        if den == 0 {
            return None;
        }
        let diff = other.point.minus(self.point);
        let nt: i128 = diff.cross(other.dir);
        let nu: i128 = diff.cross(self.dir);
        Some((fixed_ratio(nt, den), fixed_ratio(nu, den)))
    }
}

/// A directed line given by its normal and its distance from the origin
/// along that normal.
#[derive(Clone, Copy, Debug, PartialEq, Eq, Structural)]
pub struct Plane2 {
    pub normal: Vec2,
    pub distance: i64,
}

impl Plane2 {
    pub open spec fn wf(self) -> bool {
        self.normal.wf() && in_range(self.distance as int)
    }

    /// How far `point` lies in front of the line, in units of `1 / ONE^2`;
    /// negative behind it.
    pub open spec fn spec_signed_distance(self, point: Vec2) -> int {
        dot2(point, self.normal) - self.distance * ONE
    }

    pub fn is_valid(&self) -> (b: bool)
        ensures
            b == self.wf(),
    {
        self.normal.is_valid() && -LIMIT <= self.distance && self.distance <= LIMIT
    }

    pub fn signed_distance(&self, point: Vec2) -> (r: i128)
        requires
            self.wf(),
        ensures
            r == self.spec_signed_distance(point),
    {
        proof {
            lemma_mul_bound(self.distance as int, ONE as int, 0x100_0000_0000, 65536);
            lemma_mul_bound(
                point.x as int,
                self.normal.x as int,
                0x8000_0000_0000_0000,
                0x100_0000_0000,
            );
            lemma_mul_bound(
                point.y as int,
                self.normal.y as int,
                0x8000_0000_0000_0000,
                0x100_0000_0000,
            );
        }
        mul_wide(point.x, self.normal.x) + mul_wide(point.y, self.normal.y) - mul_wide(
            self.distance,
            ONE,
        )
    }
}

} // verus!
