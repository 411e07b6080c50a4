use vstd::prelude::*;
use crate::fixed::{clamp_coord, div_floor, max, min, saturate, LIMIT, ONE};
use crate::geometry::{dot2, Interval, Line2, Plane2, Side, Vec2, AABB2};
use crate::lumps::{BSPChildNode, DoomMapGLNode};
use crate::map::{Linedef, Node, NodeChild, Seg, Sidedef, Subsector};
use crate::physics::SolidMask;

verus! {

/// The categories of mover that a wall stops, by its flags: every category
/// when it has one side only or its flag for blocking all is set, monsters
/// when its flag for blocking monsters is set, none otherwise.
pub open spec fn spec_linedef_mask(flags: u16, two_sided: bool) -> SolidMask {
    if !two_sided || flags & 1 != 0 {
        SolidMask { bits: 3 }
    } else if flags & 2 != 0 {
        SolidMask { bits: 2 }
    } else {
        SolidMask { bits: 0 }
    }
}

/// The categories of mover that a wall with these flags stops.
pub fn linedef_mask(flags: u16, two_sided: bool) -> (m: SolidMask)
    ensures
        m == spec_linedef_mask(flags, two_sided),
{
    if !two_sided || flags & 1 != 0 {
        SolidMask::all()
    } else if flags & 2 != 0 {
        SolidMask::monster()
    } else {
        SolidMask::empty()
    }
}

/// The child of a node as the level holds it. Level data lists the root
/// last and counts nodes from the front; the level holds the nodes in
/// reverse, the root first, so node `i` of `count` becomes node
/// `count - 1 - i`. A node that does not exist has no counterpart.
pub open spec fn spec_node_child(count: int, child: BSPChildNode) -> Option<NodeChild> {
    match child {
        BSPChildNode::Leaf(i) => Some(NodeChild::Subsector(i)),
        BSPChildNode::Branch(i) => if i < count {
            Some(NodeChild::Node((count - 1 - i) as usize))
        } else {
            None
        },
    }
}

/// The child of a node as the level holds it.
pub fn node_child(count: usize, child: BSPChildNode) -> (r: Option<NodeChild>)
    ensures
        r == spec_node_child(count as int, child),
{
    match child {
        BSPChildNode::Leaf(i) => Some(NodeChild::Subsector(i)),
        BSPChildNode::Branch(i) => if i < count {
            Some(NodeChild::Node(count - 1 - i))
        } else {
            None
        },
    }
}

/// How far the points reach along the unit vector `normal`: from the least
/// of their distances along it, rounded down, to the greatest, rounded up.
/// Without points the extent is empty.
pub open spec fn spec_extent(points: Seq<Vec2>, normal: Vec2) -> (int, int)
    decreases points.len(),
{
    if points.len() == 0 {
        (LIMIT as int, -LIMIT)
    } else {
        let rest = spec_extent(points.drop_last(), normal);
        let d = dot2(points.last(), normal);
        (min(rest.0, saturate(d / (ONE as int))), max(rest.1, saturate(-((-d) / (ONE as int)))))
    }
}

/// No point lies outside the extent of all of them.
pub proof fn lemma_extent_holds(points: Seq<Vec2>, normal: Vec2, k: int)
    requires
        0 <= k < points.len(),
        -LIMIT * ONE <= dot2(points[k], normal) <= LIMIT * ONE,
    ensures
        spec_extent(points, normal).0 * ONE <= dot2(points[k], normal) <= spec_extent(
            points,
            normal,
        ).1 * ONE,
    decreases points.len(),
{
    let rest = points.drop_last();
    let d = dot2(points.last(), normal);
    if k < points.len() - 1 {
        assert(rest[k] == points[k]);
        lemma_extent_holds(rest, normal, k);
    } else {
        let low = d / 65536;
        let high = -((-d) / 65536);
        assert(low * 65536 <= d < (low + 1) * 65536 && high * 65536 >= d) by (nonlinear_arith)
            requires
                low == d / 65536,
                high == -((-d) / 65536),
        ;
        assert(-LIMIT <= low <= LIMIT && -LIMIT <= high <= LIMIT) by (nonlinear_arith)
            requires
                low == d / 65536,
                high == -((-d) / 65536),
                -0x100_0000_0000 * 65536 <= d <= 0x100_0000_0000 * 65536,
                LIMIT == 0x100_0000_0000,
        ;
    }
}

/// How far the points reach along `normal`.
pub fn extent(points: &Vec<Vec2>, normal: Vec2) -> (r: Interval)
    requires
        normal.is_small(),
        forall|k: int| 0 <= k < points.len() ==> (#[trigger] points[k]).is_small(),
    ensures
        r.min == spec_extent(points@, normal).0,
        r.max == spec_extent(points@, normal).1,
        r.wf(),
{
    let mut low: i64 = LIMIT;
    let mut high: i64 = -LIMIT;
    let mut i: usize = 0;
    assert(points@.take(0) =~= Seq::<Vec2>::empty());
    while i < points.len()
        invariant
            i <= points.len(),
            normal.is_small(),
            forall|k: int| 0 <= k < points.len() ==> (#[trigger] points[k]).is_small(),
            low == spec_extent(points@.take(i as int), normal).0,
            high == spec_extent(points@.take(i as int), normal).1,
            -LIMIT <= low <= LIMIT,
            -LIMIT <= high <= LIMIT,
        decreases points.len() - i,
    {
        let d: i128 = points[i].dot(normal);
        let down: i64 = clamp_coord(div_floor(d, ONE as i128));
        let up: i64 = clamp_coord(-div_floor(-d, ONE as i128));
        proof {
            assert(points@.take(i + 1).drop_last() =~= points@.take(i as int));
            assert(points@.take(i + 1).last() == points[i as int]);
        }
        if down < low {
            low = down;
        }
        if up > high {
            high = up;
        }
        i += 1;
    }
    assert(points@.take(i as int) =~= points@);
    Interval { min: low, max: high }
}

/// `list` with `v` at its end, unless it holds `v` already.
pub open spec fn once(list: Seq<usize>, v: usize) -> Seq<usize> {
    if list.contains(v) {
        list
    } else {
        list.push(v)
    }
}

/// Appends `v` to the list unless the list holds it already.
pub fn push_once(list: &mut Vec<usize>, v: usize)
    ensures
        final(list)@ == once(old(list)@, v),
{
    let mut i: usize = 0;
    while i < list.len()
        invariant
            i <= list.len(),
            list@ == old(list)@,
            forall|k: int| 0 <= k < i ==> list@[k] != v,
        decreases list.len() - i,
    {
        if list[i] == v {
            assert(list@.contains(v));
            return ;
        }
        i += 1;
    }
    list.push(v);
}

/// The sector on side `side` (0 front, 1 back) of the wall, if it has that
/// side.
pub open spec fn side_sector(l: Linedef, side: int) -> Option<usize> {
    match l.sidedefs[side] {
        Some(s) => Some(s.sector_index),
        None => None,
    }
}

/// The walls of sector `s` among the first `upto`, in order: those with a
/// side that faces the sector.
pub open spec fn sector_linedefs(linedefs: Seq<Linedef>, s: usize, upto: nat) -> Seq<usize>
    decreases upto,
{
    if upto == 0 {
        Seq::empty()
    } else {
        let before = sector_linedefs(linedefs, s, (upto - 1) as nat);
        let l = linedefs[upto - 1];
        if side_sector(l, 0) == Some(s) || side_sector(l, 1) == Some(s) {
            before.push((upto - 1) as usize)
        } else {
            before
        }
    }
}

/// The sectors next to sector `s` across one of the first `upto` walls,
/// each once, in the order in which the walls first lead to them. A wall
/// with the same sector on both sides leads nowhere.
pub open spec fn sector_neighbours(linedefs: Seq<Linedef>, s: usize, upto: nat) -> Seq<usize>
    decreases upto,
{
    if upto == 0 {
        Seq::empty()
    } else {
        let before = sector_neighbours(linedefs, s, (upto - 1) as nat);
        let l = linedefs[upto - 1];
        match (side_sector(l, 0), side_sector(l, 1)) {
            (Some(front), Some(behind)) => if front == behind {
                before
            } else if front == s {
                once(before, behind)
            } else if behind == s {
                once(before, front)
            } else {
                before
            },
            _ => before,
        }
    }
}

/// The walls of sector `s`.
pub fn linedefs_of_sector(linedefs: &Vec<Linedef>, s: usize) -> (r: Vec<usize>)
    ensures
        r@ == sector_linedefs(linedefs@, s, linedefs@.len()),
{
    let mut out: Vec<usize> = Vec::new();
    let mut i: usize = 0;
    while i < linedefs.len()
        invariant
            i <= linedefs.len(),
            out@ == sector_linedefs(linedefs@, s, i as nat),
        decreases linedefs.len() - i,
    {
        let l = &linedefs[i];
        let front = match &l.sidedefs[0] {
            Some(side) => side.sector_index == s,
            None => false,
        };
        let behind = match &l.sidedefs[1] {
            Some(side) => side.sector_index == s,
            None => false,
        };
        if front || behind {
            out.push(i);
        }
        i += 1;
    }
    out
}

/// The sectors next to sector `s`.
pub fn neighbours_of_sector(linedefs: &Vec<Linedef>, s: usize) -> (r: Vec<usize>)
    ensures
        r@ == sector_neighbours(linedefs@, s, linedefs@.len()),
{
    let mut out: Vec<usize> = Vec::new();
    let mut i: usize = 0;
    while i < linedefs.len()
        invariant
            i <= linedefs.len(),
            out@ == sector_neighbours(linedefs@, s, i as nat),
        decreases linedefs.len() - i,
    {
        let l = &linedefs[i];
        match (&l.sidedefs[0], &l.sidedefs[1]) {
            (Some(front), Some(behind)) => {
                if front.sector_index != behind.sector_index {
                    if front.sector_index == s {
                        push_once(&mut out, behind.sector_index);
                    } else if behind.sector_index == s {
                        push_once(&mut out, front.sector_index);
                    }
                }
            },
            _ => {},
        }
        i += 1;
    }
    out
}

/// The line through `point` with the unit normal `normal`: its distance
/// from the origin along the normal, rounded down.
pub open spec fn spec_partition_plane(point: Vec2, normal: Vec2) -> Plane2 {
    Plane2 { normal, distance: saturate(dot2(point, normal) / (ONE as int)) as i64 }
}

/// The line through `point` with the unit normal `normal`.
pub fn partition_plane(point: Vec2, normal: Vec2) -> (r: Plane2)
    requires
        point.is_small(),
        normal.is_small(),
    ensures
        r == spec_partition_plane(point, normal),
{
    let along: i128 = point.dot(normal);
    Plane2 { normal, distance: clamp_coord(div_floor(along, ONE as i128)) }
}

/// The sector that the segment faces: that of the face of its wall on the
/// segment's side, if the segment lies on a wall that exists and has that
/// face.
pub open spec fn seg_sector(seg: Seg, linedefs: Seq<Linedef>) -> Option<usize> {
    match seg.linedef {
        Some((index, side)) => if index < linedefs.len() {
            side_sector(
                linedefs[index as int],
                if side == Side::Right {
                    0
                } else {
                    1
                },
            )
        } else {
            None
        },
        None => None,
    }
}

/// The sector that a subsector with these segments is a piece of: the one
/// that the first of its segments to face any sector faces.
pub open spec fn segs_sector(segs: Seq<Seg>, linedefs: Seq<Linedef>) -> Option<usize>
    decreases segs.len(),
{
    if segs.len() == 0 {
        None
    } else {
        match seg_sector(segs[0], linedefs) {
            Some(s) => Some(s),
            None => segs_sector(segs.drop_first(), linedefs),
        }
    }
}

/// The sector that a subsector with these segments is a piece of.
pub fn sector_of_segs(segs: &Vec<Seg>, linedefs: &Vec<Linedef>) -> (r: Option<usize>)
    ensures
        r == segs_sector(segs@, linedefs@),
{
    let mut i: usize = 0;
    assert(segs@.skip(0) =~= segs@);
    while i < segs.len()
        invariant
            i <= segs.len(),
            segs_sector(segs@, linedefs@) == segs_sector(segs@.skip(i as int), linedefs@),
        decreases segs.len() - i,
    {
        proof {
            assert(segs@.skip(i as int)[0] == segs@[i as int]);
            assert(segs@.skip(i as int).drop_first() =~= segs@.skip(i + 1));
        }
        if let Some((index, side)) = segs[i].linedef {
            if index < linedefs.len() {
                if let Some(face) = &linedefs[index].sidedefs[side.index()] {
                    return Some(face.sector_index);
                }
            }
        }
        i += 1;
    }
    None
}

/// The walls that the first `upto` segments lie on, each once, in the order
/// in which the segments first name them.
pub open spec fn segs_linedefs(segs: Seq<Seg>, upto: nat) -> Seq<usize>
    decreases upto,
{
    if upto == 0 {
        Seq::empty()
    } else {
        let before = segs_linedefs(segs, (upto - 1) as nat);
        match segs[upto - 1].linedef {
            Some((index, _)) => once(before, index),
            None => before,
        }
    }
}

/// The walls that the segments lie on.
pub fn linedefs_of_segs(segs: &Vec<Seg>) -> (r: Vec<usize>)
    ensures
        r@ == segs_linedefs(segs@, segs@.len()),
{
    let mut out: Vec<usize> = Vec::new();
    let mut i: usize = 0;
    while i < segs.len()
        invariant
            i <= segs.len(),
            out@ == segs_linedefs(segs@, i as nat),
        decreases segs.len() - i,
    {
        if let Some((index, _)) = segs[i].linedef {
            push_once(&mut out, index);
        }
        i += 1;
    }
    out
}

/// The pieces of sector `s` among the first `upto` subsectors, in order.
pub open spec fn sector_subsectors(subsectors: Seq<Subsector>, s: usize, upto: nat) -> Seq<usize>
    decreases upto,
{
    if upto == 0 {
        Seq::empty()
    } else {
        let before = sector_subsectors(subsectors, s, (upto - 1) as nat);
        if subsectors[upto - 1].sector_index == s {
            before.push((upto - 1) as usize)
        } else {
            before
        }
    }
}

/// The pieces of sector `s`.
pub fn subsectors_of_sector(subsectors: &Vec<Subsector>, s: usize) -> (r: Vec<usize>)
    ensures
        r@ == sector_subsectors(subsectors@, s, subsectors@.len()),
{
    let mut out: Vec<usize> = Vec::new();
    let mut i: usize = 0;
    while i < subsectors.len()
        invariant
            i <= subsectors.len(),
            out@ == sector_subsectors(subsectors@, s, i as nat),
        decreases subsectors.len() - i,
    {
        if subsectors[i].sector_index == s {
            out.push(i);
        }
        i += 1;
    }
    out
}

/// The smallest rectangle that holds the points.
pub open spec fn spec_bounds(points: Seq<Vec2>) -> AABB2
    decreases points.len(),
{
    if points.len() == 0 {
        AABB2::spec_empty()
    } else {
        spec_bounds(points.drop_last()).spec_add_point(points.last())
    }
}

/// The smallest rectangle that holds the points.
pub fn bounds(points: &Vec<Vec2>) -> (r: AABB2)
    ensures
        r == spec_bounds(points@),
{
    let mut bbox = AABB2::empty();
    let mut i: usize = 0;
    assert(points@.take(0) =~= Seq::<Vec2>::empty());
    while i < points.len()
        invariant
            i <= points.len(),
            bbox == spec_bounds(points@.take(i as int)),
        decreases points.len() - i,
    {
        proof {
            assert(points@.take(i + 1).drop_last() =~= points@.take(i as int));
            assert(points@.take(i + 1).last() == points[i as int]);
        }
        bbox.add_point(points[i]);
        i += 1;
    }
    assert(points@.take(i as int) =~= points@);
    bbox
}

/// The wall from `start` to `end` with the faces `sides`, the front one
/// first: its rectangle holds just its two ends, and its mask follows from
/// its flags and from whether it has a back face.
pub open spec fn spec_wall(
    start: Vec2,
    end: Vec2,
    normal: Vec2,
    flags: u16,
    special_type: u16,
    sector_tag: u16,
    sides: [Option<Sidedef>; 2],
) -> Linedef {
    Linedef {
        line: Line2 { point: start, dir: end.spec_minus(start) },
        normal,
        bbox: AABB2::spec_empty().spec_add_point(start).spec_add_point(end),
        flags,
        solid_mask: spec_linedef_mask(flags, sides[1] is Some),
        special_type,
        sector_tag,
        sidedefs: sides,
    }
}

/// The wall from `start` to `end`.
pub fn wall(
    start: Vec2,
    end: Vec2,
    normal: Vec2,
    flags: u16,
    special_type: u16,
    sector_tag: u16,
    sides: [Option<Sidedef>; 2],
) -> (l: Linedef)
    requires
        start.wf(),
        end.wf(),
    ensures
        l == spec_wall(start, end, normal, flags, special_type, sector_tag, sides),
        l.bbox.contains(start) && l.bbox.contains(end),
{
    let mut bbox = AABB2::empty();
    bbox.add_point(start);
    bbox.add_point(end);
    let two_sided = sides[1].is_some();
    Linedef {
        line: Line2 { point: start, dir: end.minus(start) },
        normal,
        bbox,
        flags,
        solid_mask: linedef_mask(flags, two_sided),
        special_type,
        sector_tag,
        sidedefs: sides,
    }
}

/// The segment from `start` to `end` of a subsector with the corners
/// `corners`: its extent is that of the corners along its normal. A segment
/// on a wall lies on the wall's back (`left`) or front.
pub open spec fn spec_seg(
    start: Vec2,
    end: Vec2,
    normal: Vec2,
    corners: Seq<Vec2>,
    linedef: Option<usize>,
    left: bool,
) -> Seg {
    Seg {
        line: Line2 { point: start, dir: end.spec_minus(start) },
        normal,
        interval: Interval {
            min: spec_extent(corners, normal).0 as i64,
            max: spec_extent(corners, normal).1 as i64,
        },
        linedef: match linedef {
            Some(index) => Some(
                (
                    index,
                    if left {
                        Side::Left
                    } else {
                        Side::Right
                    },
                ),
            ),
            None => None,
        },
    }
}

/// The segment from `start` to `end` of a subsector with the corners
/// `corners`.
pub fn seg(
    start: Vec2,
    end: Vec2,
    normal: Vec2,
    corners: &Vec<Vec2>,
    linedef: Option<usize>,
    left: bool,
) -> (s: Seg)
    requires
        start.wf(),
        end.wf(),
        normal.is_small(),
        forall|k: int| 0 <= k < corners.len() ==> (#[trigger] corners[k]).is_small(),
    ensures
        s == spec_seg(start, end, normal, corners@, linedef, left),
{
    let side = if left {
        Side::Left
    } else {
        Side::Right
    };
    Seg {
        line: Line2 { point: start, dir: end.minus(start) },
        normal,
        interval: extent(corners, normal),
        linedef: match linedef {
            Some(index) => Some((index, side)),
            None => None,
        },
    }
}

/// The subsector with the segments `segs` and the corners `corners`, or
/// nothing when none of its segments faces a sector.
pub fn subsector(segs: Vec<Seg>, corners: &Vec<Vec2>, linedefs: &Vec<Linedef>) -> (r: Option<
    Subsector,
>)
    ensures
        r is Some <==> segs_sector(segs@, linedefs@) is Some,
        r matches Some(s) ==> {
            &&& s.segs@ == segs@
            &&& s.bbox == spec_bounds(corners@)
            &&& s.linedefs@ == segs_linedefs(segs@, segs@.len())
            &&& Some(s.sector_index) == segs_sector(segs@, linedefs@)
        },
{
    match sector_of_segs(&segs, linedefs) {
        Some(sector_index) => {
            let lines = linedefs_of_segs(&segs);
            Some(Subsector { segs, bbox: bounds(corners), linedefs: lines, sector_index })
        },
        None => None,
    }
}

/// The node that level data describes by `raw`, among `count` nodes, with
/// the unit normal `normal` of its line: the child to the right of the line
/// is the one in front. There is none when it names a node that does not
/// exist.
pub fn node(count: usize, raw: &DoomMapGLNode, normal: Vec2) -> (r: Option<Node>)
    requires
        raw.partition_point.is_small(),
        normal.is_small(),
    ensures
        r is Some <==> spec_node_child(count as int, raw.right_child_index) is Some
            && spec_node_child(count as int, raw.left_child_index) is Some,
        r matches Some(n) ==> {
            &&& n.plane == spec_partition_plane(raw.partition_point, normal)
            &&& n.linedefs@.len() == 0
            &&& n.child_bboxes[0] == raw.right_bbox
            &&& n.child_bboxes[1] == raw.left_bbox
            &&& Some(n.child_indices[0]) == spec_node_child(count as int, raw.right_child_index)
            &&& Some(n.child_indices[1]) == spec_node_child(count as int, raw.left_child_index)
        },
{
    match (node_child(count, raw.right_child_index), node_child(count, raw.left_child_index)) {
        (Some(front), Some(behind)) => Some(
            Node {
                plane: partition_plane(raw.partition_point, normal),
                linedefs: Vec::new(),
                child_bboxes: [raw.right_bbox, raw.left_bbox],
                child_indices: [front, behind],
            },
        ),
        _ => None,
    }
}

} // verus!
