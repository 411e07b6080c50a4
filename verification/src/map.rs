use vstd::prelude::*;
use crate::assets::{AssetHandle, TextureType};
use crate::fixed::in_range;
use crate::geometry::{Interval, Line2, Plane2, Side, Vec2, AABB2};
use crate::physics::SolidMask;
use crate::world::Entity;

verus! {

/// A texture or flat animation: the frames in order and how long each stays.
#[derive(Clone, Debug)]
pub struct Anim {
    pub frames: Vec<AssetHandle>,
    /// Nanoseconds per frame.
    pub frame_time: u64,
}

/// Where a running animation stands.
#[derive(Clone, Copy, Debug, PartialEq, Eq, Structural)]
pub struct AnimState {
    pub frame: usize,
    /// Nanoseconds until the next frame.
    pub time_left: u64,
}

/// One placement point of the level data.
#[derive(Clone, Copy, Debug, PartialEq, Eq, Structural)]
pub struct Thing {
    pub position: Vec2,
    /// Facing, as it is to stand in the entity's rotation.
    pub angle: i64,
    pub doomednum: u16,
    pub flags: u16,
}

/// One face of a wall: its three textures and the sector it looks into.
#[derive(Clone, Copy, Debug)]
pub struct Sidedef {
    pub texture_offset: Vec2,
    pub textures: [TextureType; 3],
    pub sector_index: usize,
}

/// Position of a texture within a sidedef.
#[derive(Clone, Copy, Debug, PartialEq, Eq, Hash, Structural)]
pub enum SidedefSlot {
    Top,
    Bottom,
    Middle,
}

impl SidedefSlot {
    pub open spec fn spec_index(self) -> int {
        match self {
            SidedefSlot::Top => 0,
            SidedefSlot::Bottom => 1,
            SidedefSlot::Middle => 2,
        }
    }

    pub fn index(self) -> (i: usize)
        ensures
            i == self.spec_index(),
            i < 3,
    {
        match self {
            SidedefSlot::Top => 0,
            SidedefSlot::Bottom => 1,
            SidedefSlot::Middle => 2,
        }
    }
}

/// The live textures of one wall face.
#[derive(Clone, Copy, Debug)]
pub struct SidedefDynamic {
    pub textures: [TextureType; 3],
}

/// A directed wall segment bounding one or two sectors.
#[derive(Clone, Copy, Debug)]
pub struct Linedef {
    pub line: Line2,
    /// Unit normal pointing to the front (right) side, scaled by `ONE`.
    pub normal: Vec2,
    pub bbox: AABB2,
    pub flags: u16,
    pub solid_mask: SolidMask,
    pub special_type: u16,
    pub sector_tag: u16,
    /// Front face, then back face.
    pub sidedefs: [Option<Sidedef>; 2],
}

#[derive(Clone, Copy, Debug)]
pub struct LinedefDynamic {
    pub entity: Entity,
    pub sidedefs: [Option<SidedefDynamic>; 2],
    pub texture_offset: Vec2,
}

/// Names a linedef of a spawned map from the entity that stands for it.
#[derive(Clone, Copy, Debug, PartialEq, Eq, Structural)]
pub struct LinedefRef {
    pub map_entity: Entity,
    pub index: usize,
}

/// One boundary segment of a subsector.
#[derive(Clone, Copy, Debug)]
pub struct Seg {
    pub line: Line2,
    /// Outward normal, scaled by `ONE`.
    pub normal: Vec2,
    /// The extent of the subsector along `normal`, in map units.
    pub interval: Interval,
    pub linedef: Option<(usize, Side)>,
}

/// A convex piece of exactly one sector; a leaf of the node tree.
#[derive(Clone, Debug)]
pub struct Subsector {
    pub segs: Vec<Seg>,
    pub bbox: AABB2,
    pub linedefs: Vec<usize>,
    pub sector_index: usize,
}

/// A child of a node: another node, or a leaf.
#[derive(Copy, Clone, Debug, PartialEq, Eq, Structural)]
pub enum NodeChild {
    Subsector(usize),
    Node(usize),
}

/// An inner node of the tree: a splitting line and what lies on each side.
#[derive(Clone, Debug)]
pub struct Node {
    pub plane: Plane2,
    pub linedefs: Vec<usize>,
    pub child_bboxes: [AABB2; 2],
    /// The child in front of the line (`Side::Right`), then the one behind.
    pub child_indices: [NodeChild; 2],
}

#[derive(Clone, Debug)]
pub struct Sector {
    /// Floor height to ceiling height.
    pub interval: Interval,
    /// Floor, then ceiling.
    pub textures: [TextureType; 2],
    pub light_level: i64,
    pub special_type: u16,
    pub sector_tag: u16,
    pub linedefs: Vec<usize>,
    pub subsectors: Vec<usize>,
    /// The sectors that share a two-sided linedef with this one.
    pub neighbours: Vec<usize>,
}

/// Position of a texture within a sector.
#[derive(Clone, Copy, Debug, PartialEq, Eq, Hash, Structural)]
pub enum SectorSlot {
    Floor,
    Ceiling,
}

impl SectorSlot {
    pub fn index(self) -> (i: usize)
        ensures
            i == (if self == SectorSlot::Floor { 0int } else { 1int }),
    {
        match self {
            SectorSlot::Floor => 0,
            SectorSlot::Ceiling => 1,
        }
    }
}

/// The live heights and light of one sector.
#[derive(Clone, Copy, Debug, PartialEq, Eq, Structural)]
pub struct SectorDynamic {
    pub entity: Entity,
    pub light_level: i64,
    pub interval: Interval,
}

/// Names a sector of a spawned map from the entity that stands for it.
#[derive(Clone, Copy, Debug, PartialEq, Eq, Structural)]
pub struct SectorRef {
    pub map_entity: Entity,
    pub index: usize,
}

/// A parsed level. Never changed after it is built.
#[derive(Clone, Debug)]
pub struct LevelMap {
    pub anims_flat: Vec<(AssetHandle, Anim)>,
    pub anims_wall: Vec<(AssetHandle, Anim)>,
    pub bbox: AABB2,
    pub linedefs: Vec<Linedef>,
    pub nodes: Vec<Node>,
    pub sectors: Vec<Sector>,
    pub subsectors: Vec<Subsector>,
    pub sky: AssetHandle,
    /// Each switch texture with the texture shown once it is thrown.
    pub switches: Vec<(AssetHandle, AssetHandle)>,
}

/// What changes during play, index for index with the `LevelMap`.
#[derive(Clone, Debug)]
pub struct MapDynamic {
    pub anim_states_flat: Vec<(AssetHandle, AnimState)>,
    pub anim_states_wall: Vec<(AssetHandle, AnimState)>,
    pub map: AssetHandle,
    pub linedefs: Vec<LinedefDynamic>,
    pub sectors: Vec<SectorDynamic>,
}

impl MapDynamic {
    /// The overlay has one entry per linedef and per sector of `map`, a
    /// sidedef wherever the map has one, and heights in range.
    pub open spec fn wf(self, map: LevelMap) -> bool {
        &&& self.linedefs.len() == map.linedefs.len()
        &&& self.sectors.len() == map.sectors.len()
        &&& forall|i: int| 0 <= i < self.sectors.len() ==> (#[trigger] self.sectors[i]).interval.wf()
        &&& forall|i: int|
            0 <= i < self.linedefs.len() ==> ((#[trigger] self.linedefs[i]).sidedefs[0] is Some
                <==> map.linedefs[i].sidedefs[0] is Some)
    }
}

impl Linedef {
    pub open spec fn wf(self) -> bool {
        &&& self.line.wf()
        &&& in_range(self.line.point.x + self.line.dir.x)
        &&& in_range(self.line.point.y + self.line.dir.y)
        &&& -crate::fixed::ONE <= self.normal.x <= crate::fixed::ONE
        &&& -crate::fixed::ONE <= self.normal.y <= crate::fixed::ONE
        &&& self.normal.is_unit()
        &&& self.bbox.wf()
        &&& self.bbox.contains(self.line.point)
        &&& self.bbox.contains(self.line.end())
    }
}

impl Seg {
    pub open spec fn wf(self) -> bool {
        self.line.wf() && self.normal.wf() && self.normal.is_unit() && self.interval.wf()
    }
}

impl Subsector {
    pub open spec fn wf(self) -> bool {
        &&& self.bbox.wf()
        &&& forall|i: int| 0 <= i < self.segs.len() ==> (#[trigger] self.segs[i]).wf()
    }
}

/// Some corner of the box lies on the line or in front of it.
pub open spec fn any_front(plane: Plane2, bbox: AABB2) -> bool {
    ||| plane.spec_signed_distance(Vec2 { x: bbox.x.min, y: bbox.y.min }) >= 0
    ||| plane.spec_signed_distance(Vec2 { x: bbox.x.min, y: bbox.y.max }) >= 0
    ||| plane.spec_signed_distance(Vec2 { x: bbox.x.max, y: bbox.y.min }) >= 0
    ||| plane.spec_signed_distance(Vec2 { x: bbox.x.max, y: bbox.y.max }) >= 0
}

/// Some corner of the box lies on the line or behind it.
pub open spec fn any_back(plane: Plane2, bbox: AABB2) -> bool {
    ||| plane.spec_signed_distance(Vec2 { x: bbox.x.min, y: bbox.y.min }) <= 0
    ||| plane.spec_signed_distance(Vec2 { x: bbox.x.min, y: bbox.y.max }) <= 0
    ||| plane.spec_signed_distance(Vec2 { x: bbox.x.max, y: bbox.y.min }) <= 0
    ||| plane.spec_signed_distance(Vec2 { x: bbox.x.max, y: bbox.y.max }) <= 0
}

impl LevelMap {
    /// `child` names something that exists.
    pub open spec fn child_ok(self, child: NodeChild) -> bool {
        match child {
            NodeChild::Subsector(k) => k < self.subsectors.len(),
            NodeChild::Node(j) => j < self.nodes.len(),
        }
    }

    /// `child`, if it is a node, has a lower rank than node `i`.
    pub open spec fn ranked_below(self, rank: Seq<nat>, i: int, child: NodeChild) -> bool {
        child matches NodeChild::Node(j) ==> j < rank.len() && rank[j as int] < rank[i]
    }

    /// `rank` gives each node a number greater than that of every node
    /// directly below it.
    pub open spec fn ranks_ok(self, rank: Seq<nat>) -> bool {
        &&& rank.len() == self.nodes.len()
        &&& forall|i: int|
            #![trigger rank[i]]
            0 <= i < self.nodes.len() ==> {
                &&& self.ranked_below(rank, i, self.nodes[i].child_indices[0])
                &&& self.ranked_below(rank, i, self.nodes[i].child_indices[1])
            }
    }

    /// Some ranking of the nodes, if there is one.
    pub open spec fn rank(self) -> Seq<nat> {
        choose|rank: Seq<nat>| self.ranks_ok(rank)
    }

    /// There is a node, every child exists, and the nodes can be ranked so
    /// that each stands above its children: the tree is finite and has no
    /// loop, in whatever order its nodes are listed.
    pub open spec fn nodes_wf(self) -> bool {
        &&& self.nodes.len() > 0
        &&& forall|i: int|
            0 <= i < self.nodes.len() ==> {
                &&& (#[trigger] self.nodes[i]).plane.wf()
                &&& self.child_ok(self.nodes[i].child_indices[0])
                &&& self.child_ok(self.nodes[i].child_indices[1])
            }
        &&& exists|rank: Seq<nat>| self.ranks_ok(rank)
    }

    pub open spec fn side_ok(self, side: Option<Sidedef>) -> bool {
        side matches Some(s) ==> s.sector_index < self.sectors.len()
    }

    pub open spec fn linedefs_wf(self) -> bool {
        forall|i: int|
            0 <= i < self.linedefs.len() ==> {
                &&& (#[trigger] self.linedefs[i]).wf()
                &&& self.side_ok(self.linedefs[i].sidedefs[0])
                &&& self.side_ok(self.linedefs[i].sidedefs[1])
            }
    }

    pub open spec fn sector_ok(self, s: Sector) -> bool {
        &&& s.interval.wf()
        &&& forall|j: int|
            0 <= j < s.subsectors.len() ==> #[trigger] s.subsectors[j] < self.subsectors.len()
        &&& forall|j: int|
            0 <= j < s.neighbours.len() ==> #[trigger] s.neighbours[j] < self.sectors.len()
    }

    pub open spec fn sectors_wf(self) -> bool {
        forall|i: int| 0 <= i < self.sectors.len() ==> self.sector_ok(#[trigger] self.sectors[i])
    }

    pub open spec fn subsectors_wf(self) -> bool {
        forall|i: int|
            0 <= i < self.subsectors.len() ==> {
                &&& (#[trigger] self.subsectors[i]).wf()
                &&& self.subsectors[i].sector_index < self.sectors.len()
            }
    }

    /// Every index names something that exists, the node tree is finite,
    /// and every coordinate is in range.
    pub open spec fn wf(self) -> bool {
        &&& self.bbox.wf()
        &&& self.nodes_wf()
        &&& self.linedefs_wf()
        &&& self.sectors_wf()
        &&& self.subsectors_wf()
    }

    /// The root of the tree.
    pub open spec fn root() -> NodeChild {
        NodeChild::Node(0)
    }

    /// A number that falls with every step of a descent from `child`: one
    /// more than the node's rank, and 0 for a leaf.
    pub open spec fn height(self, child: NodeChild) -> nat {
        match child {
            NodeChild::Subsector(_) => 0,
            NodeChild::Node(i) => if i < self.nodes.len() {
                self.rank()[i as int] + 1
            } else {
                0
            },
        }
    }

    /// The leaf reached from `child` by stepping, at each node, to the back
    /// child when the point is on or behind the node's line and to the front
    /// child otherwise.
    pub open spec fn locate(self, child: NodeChild, p: Vec2) -> usize
        decreases self.height(child),
    {
        match child {
            NodeChild::Subsector(k) => k,
            NodeChild::Node(i) => {
                if self.nodes_wf() && i < self.nodes.len() {
                    if self.nodes[i as int].plane.spec_signed_distance(p) <= 0 {
                        self.locate(self.nodes[i as int].child_indices[1], p)
                    } else {
                        self.locate(self.nodes[i as int].child_indices[0], p)
                    }
                } else {
                    0
                }
            },
        }
    }

    /// What a traversal from `node` with the query box `bbox` visits, in
    /// order: the node itself, then everything below its front child if a
    /// corner of the box is on or in front of its line, then everything below
    /// its back child if a corner is on or behind it.
    pub open spec fn visited(self, node: NodeChild, bbox: AABB2) -> Seq<NodeChild>
        decreases self.height(node),
    {
        match node {
            NodeChild::Subsector(_) => seq![node],
            NodeChild::Node(i) => {
                if self.nodes_wf() && i < self.nodes.len() {
                    let n = self.nodes[i as int];
                    let front = if any_front(n.plane, bbox) {
                        self.visited(n.child_indices[0], bbox)
                    } else {
                        Seq::<NodeChild>::empty()
                    };
                    let back = if any_back(n.plane, bbox) {
                        self.visited(n.child_indices[1], bbox)
                    } else {
                        Seq::<NodeChild>::empty()
                    };
                    seq![node] + front + back
                } else {
                    seq![node]
                }
            },
        }
    }

    /// The position of the subsector that holds `point`.
    pub fn find_subsector_index(&self, point: Vec2) -> (k: usize)
        requires
            self.nodes_wf(),
        ensures
            k == self.locate(Self::root(), point),
            k < self.subsectors.len(),
    {
        let mut child = NodeChild::Node(0);
        loop
            invariant
                self.nodes_wf(),
                self.child_ok(child),
                self.locate(child, point) == self.locate(Self::root(), point),
            decreases self.height(child),
        {
            match child {
                NodeChild::Subsector(k) => {
                    return k;
                },
                NodeChild::Node(i) => {
                    let node = &self.nodes[i];
                    let d: i128 = node.plane.signed_distance(point);
                    child =
                    if d <= 0 {
                        node.child_indices[1]
                    } else {
                        node.child_indices[0]
                    };
                },
            }
        }
    }

    /// The subsector that holds `point`.
    pub fn find_subsector(&self, point: Vec2) -> (r: &Subsector)
        requires
            self.nodes_wf(),
        ensures
            self.locate(Self::root(), point) < self.subsectors.len(),
            *r == self.subsectors[self.locate(Self::root(), point) as int],
    {
        let k = self.find_subsector_index(point);
        &self.subsectors[k]
    }

    /// Appends to `out` every node and leaf whose region the box may touch,
    /// starting from `node`, in visiting order.
    pub fn traverse_nodes(&self, node: NodeChild, bbox: &AABB2, out: &mut Vec<NodeChild>)
        requires
            self.nodes_wf(),
            self.child_ok(node),
        ensures
            final(out)@ == old(out)@ + self.visited(node, *bbox),
        decreases self.height(node),
    {
        out.push(node);
        if let NodeChild::Node(index) = node {
            let n = &self.nodes[index];
            let d0: i128 = n.plane.signed_distance(Vec2 { x: bbox.x.min, y: bbox.y.min });
            let d1: i128 = n.plane.signed_distance(Vec2 { x: bbox.x.min, y: bbox.y.max });
            let d2: i128 = n.plane.signed_distance(Vec2 { x: bbox.x.max, y: bbox.y.min });
            let d3: i128 = n.plane.signed_distance(Vec2 { x: bbox.x.max, y: bbox.y.max });
            if d0 >= 0 || d1 >= 0 || d2 >= 0 || d3 >= 0 {
                self.traverse_nodes(n.child_indices[0], bbox, out);
            }
            if d0 <= 0 || d1 <= 0 || d2 <= 0 || d3 <= 0 {
                self.traverse_nodes(n.child_indices[1], bbox, out);
            }
            assert(out@ =~= old(out)@ + self.visited(node, *bbox));
        } else {
            assert(out@ =~= old(out)@ + self.visited(node, *bbox));
        }
    }
}

/// A point of a box is never further behind a line than every corner of
/// the box, nor further in front of it than every corner.
pub proof fn lemma_corner_bounds(plane: Plane2, bbox: AABB2, p: Vec2)
    requires
        bbox.contains(p),
    ensures
        plane.spec_signed_distance(p) <= 0 ==> any_back(plane, bbox),
        plane.spec_signed_distance(p) >= 0 ==> any_front(plane, bbox),
{
    let a = plane.normal.x as int;
    let b = plane.normal.y as int;
    let px = p.x as int;
    let py = p.y as int;
    let x0 = bbox.x.min as int;
    let x1 = bbox.x.max as int;
    let y0 = bbox.y.min as int;
    let y1 = bbox.y.max as int;
    assert(a >= 0 ==> x0 * a <= px * a && px * a <= x1 * a) by (nonlinear_arith)
        requires
            x0 <= px <= x1,
    ;
    assert(a <= 0 ==> x1 * a <= px * a && px * a <= x0 * a) by (nonlinear_arith)
        requires
            x0 <= px <= x1,
    ;
    assert(b >= 0 ==> y0 * b <= py * b && py * b <= y1 * b) by (nonlinear_arith)
        requires
            y0 <= py <= y1,
    ;
    assert(b <= 0 ==> y1 * b <= py * b && py * b <= y0 * b) by (nonlinear_arith)
        requires
            y0 <= py <= y1,
    ;
}

impl LevelMap {
    /// Completeness of the traversal: for every point of the query box, the
    /// leaf that a descent from `node` reaches for that point is among the
    /// leaves that the traversal from `node` visits.
    pub proof fn lemma_traverse_reaches_leaf(self, node: NodeChild, bbox: AABB2, p: Vec2)
        requires
            self.nodes_wf(),
            self.child_ok(node),
            bbox.contains(p),
        ensures
            self.visited(node, bbox).contains(NodeChild::Subsector(self.locate(node, p))),
        decreases self.height(node),
    {
        match node {
            NodeChild::Subsector(k) => {
                assert(self.visited(node, bbox)[0] == node);
            },
            NodeChild::Node(i) => {
                let n = self.nodes[i as int];
                let head = seq![node];
                let front = if any_front(n.plane, bbox) {
                    self.visited(n.child_indices[0], bbox)
                } else {
                    Seq::<NodeChild>::empty()
                };
                let back = if any_back(n.plane, bbox) {
                    self.visited(n.child_indices[1], bbox)
                } else {
                    Seq::<NodeChild>::empty()
                };
                let all = head + front + back;
                assert(self.visited(node, bbox) == all);
                let leaf = NodeChild::Subsector(self.locate(node, p));
                lemma_corner_bounds(n.plane, bbox, p);
                if n.plane.spec_signed_distance(p) <= 0 {
                    self.lemma_traverse_reaches_leaf(n.child_indices[1], bbox, p);
                    let j = choose|j: int| 0 <= j < back.len() && back[j] == leaf;
                    assert(all[head.len() + front.len() + j] == leaf);
                } else {
                    self.lemma_traverse_reaches_leaf(n.child_indices[0], bbox, p);
                    let j = choose|j: int| 0 <= j < front.len() && front[j] == leaf;
                    assert(all[head.len() + j] == leaf);
                }
            },
        }
    }

    /// A descent always ends at a subsector that exists.
    pub proof fn lemma_locate_in_bounds(self, node: NodeChild, p: Vec2)
        requires
            self.nodes_wf(),
            self.child_ok(node),
        ensures
            self.locate(node, p) < self.subsectors.len(),
        decreases self.height(node),
    {
        match node {
            NodeChild::Subsector(k) => {},
            NodeChild::Node(i) => {
                let n = self.nodes[i as int];
                if n.plane.spec_signed_distance(p) <= 0 {
                    self.lemma_locate_in_bounds(n.child_indices[1], p);
                } else {
                    self.lemma_locate_in_bounds(n.child_indices[0], p);
                }
            },
        }
    }
}

/// How many of the marks are 0.
pub open spec fn unmarked(marks: Seq<usize>) -> nat
    decreases marks.len(),
{
    if marks.len() == 0 {
        0
    } else {
        unmarked(marks.drop_last()) + if marks.last() == 0 {
            1nat
        } else {
            0nat
        }
    }
}

pub proof fn lemma_unmarked_bounds(marks: Seq<usize>)
    ensures
        unmarked(marks) <= marks.len(),
    decreases marks.len(),
{
    if marks.len() > 0 {
        lemma_unmarked_bounds(marks.drop_last());
    }
}

/// Marking one more leaves one fewer unmarked.
pub proof fn lemma_mark_one(marks: Seq<usize>, i: int, mark: usize)
    requires
        0 <= i < marks.len(),
        marks[i] == 0,
        mark > 0,
    ensures
        unmarked(marks.update(i, mark)) + 1 == unmarked(marks),
    decreases marks.len(),
{
    let after = marks.update(i, mark);
    if i == marks.len() - 1 {
        assert(after.drop_last() =~= marks.drop_last());
    } else {
        assert(after.drop_last() =~= marks.drop_last().update(i, mark));
        lemma_mark_one(marks.drop_last(), i, mark);
    }
}

/// Every number of the list is below `n`.
pub open spec fn all_below(v: Seq<usize>, n: int) -> bool {
    forall|j: int| 0 <= j < v.len() ==> #[trigger] v[j] < n
}

pub fn indices_below(v: &Vec<usize>, n: usize) -> (b: bool)
    ensures
        b == all_below(v@, n as int),
{
    let mut j: usize = 0;
    while j < v.len()
        invariant
            j <= v.len(),
            forall|k: int| 0 <= k < j ==> #[trigger] v@[k] < n,
        decreases v.len() - j,
    {
        if v[j] >= n {
            return false;
        }
        j += 1;
    }
    true
}

impl Linedef {
    pub fn is_valid(&self) -> (b: bool)
        ensures
            b == self.wf(),
    {
        self.line.is_valid() && -crate::fixed::LIMIT <= self.line.point.x + self.line.dir.x
            && self.line.point.x + self.line.dir.x <= crate::fixed::LIMIT && -crate::fixed::LIMIT
            <= self.line.point.y + self.line.dir.y && self.line.point.y + self.line.dir.y
            <= crate::fixed::LIMIT && -crate::fixed::ONE <= self.normal.x && self.normal.x
            <= crate::fixed::ONE && -crate::fixed::ONE <= self.normal.y && self.normal.y
            <= crate::fixed::ONE && self.normal.has_unit_length() && self.bbox.is_valid()
            && self.bbox.x.min <= self.line.point.x
            && self.line.point.x <= self.bbox.x.max && self.bbox.y.min <= self.line.point.y
            && self.line.point.y <= self.bbox.y.max && self.bbox.x.min <= self.line.point.x
            + self.line.dir.x && self.line.point.x + self.line.dir.x <= self.bbox.x.max
            && self.bbox.y.min <= self.line.point.y + self.line.dir.y && self.line.point.y
            + self.line.dir.y <= self.bbox.y.max
    }
}

impl Seg {
    pub fn is_valid(&self) -> (b: bool)
        ensures
            b == self.wf(),
    {
        self.line.is_valid() && self.normal.is_valid() && self.normal.has_unit_length()
            && self.interval.is_valid()
    }
}

impl Seg {
    /// The point is not beyond the subsector's extent along this segment's
    /// normal, either way.
    pub open spec fn spec_bounds(self, p: Vec2) -> bool {
        self.interval.min * crate::fixed::ONE <= crate::geometry::dot2(p, self.normal)
            <= self.interval.max * crate::fixed::ONE
    }

    pub fn bounds(&self, p: Vec2) -> (b: bool)
        requires
            self.wf(),
            p.wf(),
        ensures
            b == self.spec_bounds(p),
    {
        let d: i128 = p.dot(self.normal);
        crate::fixed::mul_wide(self.interval.min, crate::fixed::ONE) <= d && d
            <= crate::fixed::mul_wide(self.interval.max, crate::fixed::ONE)
    }
}

impl Subsector {
    /// The point lies within the polygon of the subsector: within its
    /// extent along the normal of each of its segments.
    pub open spec fn spec_contains(self, p: Vec2) -> bool {
        forall|i: int| 0 <= i < self.segs.len() ==> (#[trigger] self.segs[i]).spec_bounds(p)
    }

    /// Whether the point lies within the polygon of the subsector.
    pub fn contains(&self, p: Vec2) -> (b: bool)
        requires
            self.wf(),
            p.wf(),
        ensures
            b == self.spec_contains(p),
    {
        let mut i: usize = 0;
        while i < self.segs.len()
            invariant
                i <= self.segs.len(),
                self.wf(),
                p.wf(),
                forall|k: int| 0 <= k < i ==> (#[trigger] self.segs[k]).spec_bounds(p),
            decreases self.segs.len() - i,
        {
            if !self.segs[i].bounds(p) {
                return false;
            }
            i += 1;
        }
        true
    }

    pub fn is_valid(&self) -> (b: bool)
        ensures
            b == self.wf(),
    {
        if !self.bbox.is_valid() {
            return false;
        }
        let mut i: usize = 0;
        while i < self.segs.len()
            invariant
                i <= self.segs.len(),
                self.bbox.wf(),
                forall|k: int| 0 <= k < i ==> (#[trigger] self.segs[k]).wf(),
            decreases self.segs.len() - i,
        {
            if !self.segs[i].is_valid() {
                return false;
            }
            i += 1;
        }
        true
    }
}

impl LevelMap {
    pub fn child_valid(&self, child: NodeChild) -> (b: bool)
        ensures
            b == self.child_ok(child),
    {
        match child {
            NodeChild::Subsector(k) => k < self.subsectors.len(),
            NodeChild::Node(j) => j < self.nodes.len(),
        }
    }

    pub fn side_valid(&self, side: &Option<Sidedef>) -> (b: bool)
        ensures
            b == self.side_ok(*side),
    {
        match side {
            Some(s) => s.sector_index < self.sectors.len(),
            None => true,
        }
    }

    /// Every node has a valid line and children that exist.
    pub open spec fn nodes_linked(self) -> bool {
        forall|i: int|
            0 <= i < self.nodes.len() ==> {
                &&& (#[trigger] self.nodes[i]).plane.wf()
                &&& self.child_ok(self.nodes[i].child_indices[0])
                &&& self.child_ok(self.nodes[i].child_indices[1])
            }
    }

    pub fn nodes_are_linked(&self) -> (b: bool)
        ensures
            b == self.nodes_linked(),
    {
        let mut i: usize = 0;
        while i < self.nodes.len()
            invariant
                i <= self.nodes.len(),
                forall|k: int|
                    0 <= k < i ==> {
                        &&& (#[trigger] self.nodes[k]).plane.wf()
                        &&& self.child_ok(self.nodes[k].child_indices[0])
                        &&& self.child_ok(self.nodes[k].child_indices[1])
                    },
            decreases self.nodes.len() - i,
        {
            let node = &self.nodes[i];
            if !(node.plane.is_valid() && self.child_valid(node.child_indices[0])
                && self.child_valid(node.child_indices[1])) {
                return false;
            }
            i += 1;
        }
        true
    }

    /// `child` is a leaf, or a node that `marks` has ranked, below `top`.
    pub open spec fn settled(self, marks: Seq<usize>, child: NodeChild, top: int) -> bool {
        child matches NodeChild::Node(j) ==> j < marks.len() && 0 < marks[j as int] < top
    }

    /// The marks, where they are not 0, rank the nodes that have them above
    /// their children, and none is greater than the number of nodes marked.
    pub open spec fn partly_ranked(self, marks: Seq<usize>) -> bool {
        &&& marks.len() == self.nodes.len()
        &&& unmarked(marks) <= marks.len()
        &&& forall|i: int|
            #![trigger marks[i]]
            0 <= i < marks.len() ==> {
                &&& marks[i] <= marks.len() - unmarked(marks)
                &&& marks[i] > 0 ==> {
                    &&& self.settled(marks, self.nodes[i].child_indices[0], marks[i] as int)
                    &&& self.settled(marks, self.nodes[i].child_indices[1], marks[i] as int)
                }
            }
    }

    /// Node `i` cannot be marked yet: a child of it is a node without a mark.
    pub open spec fn waits(self, marks: Seq<usize>, i: int) -> bool {
        ||| self.nodes[i].child_indices[0] matches NodeChild::Node(j) && j < marks.len()
            && marks[j as int] == 0
        ||| self.nodes[i].child_indices[1] matches NodeChild::Node(j) && j < marks.len()
            && marks[j as int] == 0
    }

    /// While every node without a mark waits for another, none of them can
    /// have a rank: it would be greater than any number.
    pub proof fn lemma_waiting_has_no_rank(self, marks: Seq<usize>, rank: Seq<nat>, k: nat)
        requires
            marks.len() == self.nodes.len(),
            self.ranks_ok(rank),
            forall|i: int|
                #![trigger marks[i]]
                0 <= i < marks.len() && marks[i] == 0 ==> self.waits(marks, i),
        ensures
            forall|i: int| #![trigger marks[i]] 0 <= i < marks.len() && marks[i] == 0 ==> rank[i] >= k,
        decreases k,
    {
        if k > 0 {
            self.lemma_waiting_has_no_rank(marks, rank, (k - 1) as nat);
            assert forall|i: int| #![trigger marks[i]] 0 <= i < marks.len() && marks[i] == 0 implies rank[i]
                >= k by {
                assert(self.waits(marks, i));
                match self.nodes[i].child_indices[0] {
                    NodeChild::Node(j) => {
                        if j < marks.len() && marks[j as int] == 0 {
                            assert(rank[j as int] < rank[i]);
                        }
                    },
                    _ => {},
                }
                match self.nodes[i].child_indices[1] {
                    NodeChild::Node(j) => {
                        if j < marks.len() && marks[j as int] == 0 {
                            assert(rank[j as int] < rank[i]);
                        }
                    },
                    _ => {},
                }
            }
        }
    }

    /// The mark of `child`: 0 for a leaf.
    fn mark_of(&self, marks: &Vec<usize>, child: NodeChild) -> (m: Option<usize>)
        requires
            marks.len() == self.nodes.len(),
            self.child_ok(child),
        ensures
            match child {
                NodeChild::Subsector(_) => m == Some(0usize),
                NodeChild::Node(j) => m == (if marks[j as int] > 0 {
                    Some(marks[j as int])
                } else {
                    None
                }),
            },
    {
        match child {
            NodeChild::Subsector(_) => Some(0),
            NodeChild::Node(j) => if marks[j] > 0 {
                Some(marks[j])
            } else {
                None
            },
        }
    }

    /// Whether the nodes form a finite tree: marks every node whose
    /// children are leaves or marked, round after round, until a round marks
    /// none; the tree is finite exactly when no node is then left.
    pub fn nodes_valid(&self) -> (b: bool)
        ensures
            b == self.nodes_wf(),
    {
        let n = self.nodes.len();
        if n == 0 || !self.nodes_are_linked() {
            return false;
        }
        let mut marks: Vec<usize> = Vec::new();
        while marks.len() < n
            invariant
                marks.len() <= n,
                forall|k: int| 0 <= k < marks.len() ==> marks[k] == 0,
            decreases n - marks.len(),
        {
            marks.push(0);
        }
        proof {
            lemma_unmarked_bounds(marks@);
        }
        loop
            invariant
                n == self.nodes.len(),
                n > 0,
                self.nodes_linked(),
                self.partly_ranked(marks@),
            decreases unmarked(marks@),
        {
            let ghost before = marks@;
            let mut changed = false;
            let mut waiting = false;
            let mut i: usize = 0;
            while i < n
                invariant
                    i <= n,
                    n == self.nodes.len(),
                    self.nodes_linked(),
                    self.partly_ranked(marks@),
                    unmarked(marks@) <= unmarked(before),
                    changed ==> unmarked(marks@) < unmarked(before),
                    !changed ==> marks@ == before,
                    !changed ==> forall|k: int|
                        #![trigger marks[k]]
                        0 <= k < i && marks[k] == 0 ==> self.waits(marks@, k),
                    !changed ==> (waiting <==> exists|k: int|
                        #![trigger marks[k]]
                        0 <= k < i && marks[k] == 0),
                decreases n - i,
            {
                if marks[i] == 0 {
                    let node = &self.nodes[i];
                    assert(self.child_ok(node.child_indices[0]));
                    assert(self.child_ok(node.child_indices[1]));
                    let m0 = self.mark_of(&marks, node.child_indices[0]);
                    let m1 = self.mark_of(&marks, node.child_indices[1]);
                    match (m0, m1) {
                        (Some(a), Some(c)) => {
                            let top: usize = if a > c {
                                a
                            } else {
                                c
                            };
                            proof {
                                lemma_mark_one(marks@, i as int, 1);
                                assert(top <= marks.len() - unmarked(marks@));
                                lemma_mark_one(marks@, i as int, (top + 1) as usize);
                                lemma_unmarked_bounds(marks@.update(i as int, (top + 1) as usize));
                            }
                            let ghost prior = marks@;
                            marks[i] = top + 1;
                            changed = true;
                            proof {
                                assert(marks@ == prior.update(i as int, (top + 1) as usize));
                                assert forall|k: int| #![trigger marks[k]] 0 <= k < marks.len() implies {
                                    &&& marks[k] <= marks.len() - unmarked(marks@)
                                    &&& marks[k] > 0 ==> {
                                        &&& self.settled(
                                            marks@,
                                            self.nodes[k].child_indices[0],
                                            marks[k] as int,
                                        )
                                        &&& self.settled(
                                            marks@,
                                            self.nodes[k].child_indices[1],
                                            marks[k] as int,
                                        )
                                    }
                                } by {
                                    let _ = prior[k];
                                }
                            }
                        },
                        _ => {
                            assert(self.waits(marks@, i as int));
                            waiting = true;
                        },
                    }
                }
                i += 1;
            }
            if !changed {
                proof {
                    if waiting {
                        assert forall|rank: Seq<nat>| !self.ranks_ok(rank) by {
                            if self.ranks_ok(rank) {
                                let k = choose|k: int|
                                    #![trigger marks[k]]
                                    0 <= k < n && marks[k] == 0;
                                self.lemma_waiting_has_no_rank(marks@, rank, rank[k] + 1);
                            }
                        }
                    } else {
                        let rank = Seq::new(n as nat, |k: int| marks[k] as nat);
                        assert forall|k: int| #![trigger rank[k]] 0 <= k < n implies {
                            &&& self.ranked_below(rank, k, self.nodes[k].child_indices[0])
                            &&& self.ranked_below(rank, k, self.nodes[k].child_indices[1])
                        } by {
                            let _ = marks[k];
                            assert(marks[k] > 0);
                        }
                        assert(self.ranks_ok(rank));
                    }
                }
                return !waiting;
            }
        }
    }

    pub fn linedefs_valid(&self) -> (b: bool)
        ensures
            b == self.linedefs_wf(),
    {
        let mut i: usize = 0;
        while i < self.linedefs.len()
            invariant
                i <= self.linedefs.len(),
                forall|k: int|
                    0 <= k < i ==> {
                        &&& (#[trigger] self.linedefs[k]).wf()
                        &&& self.side_ok(self.linedefs[k].sidedefs[0])
                        &&& self.side_ok(self.linedefs[k].sidedefs[1])
                    },
            decreases self.linedefs.len() - i,
        {
            let linedef = &self.linedefs[i];
            if !(linedef.is_valid() && self.side_valid(&linedef.sidedefs[0]) && self.side_valid(
                &linedef.sidedefs[1],
            )) {
                return false;
            }
            i += 1;
        }
        true
    }

    pub fn sectors_valid(&self) -> (b: bool)
        ensures
            b == self.sectors_wf(),
    {
        let mut i: usize = 0;
        while i < self.sectors.len()
            invariant
                i <= self.sectors.len(),
                forall|k: int| 0 <= k < i ==> self.sector_ok(#[trigger] self.sectors[k]),
            decreases self.sectors.len() - i,
        {
            let sector = &self.sectors[i];
            if !(sector.interval.is_valid() && indices_below(
                &sector.subsectors,
                self.subsectors.len(),
            ) && indices_below(&sector.neighbours, self.sectors.len())) {
                assert(!self.sector_ok(self.sectors[i as int]));
                return false;
            }
            i += 1;
        }
        true
    }

    pub fn subsectors_valid(&self) -> (b: bool)
        ensures
            b == self.subsectors_wf(),
    {
        let mut i: usize = 0;
        while i < self.subsectors.len()
            invariant
                i <= self.subsectors.len(),
                forall|k: int|
                    0 <= k < i ==> {
                        &&& (#[trigger] self.subsectors[k]).wf()
                        &&& self.subsectors[k].sector_index < self.sectors.len()
                    },
            decreases self.subsectors.len() - i,
        {
            let subsector = &self.subsectors[i];
            if !(subsector.is_valid() && subsector.sector_index < self.sectors.len()) {
                return false;
            }
            i += 1;
        }
        true
    }

    /// Whether the level can be played: every index names something that
    /// exists, the node tree is finite, and every coordinate is in range.
    pub fn is_valid(&self) -> (b: bool)
        ensures
            b == self.wf(),
    {
        self.bbox.is_valid() && self.nodes_valid() && self.linedefs_valid() && self.sectors_valid()
            && self.subsectors_valid()
    }
}

impl MapDynamic {
    /// Whether this is live state of the level `map`.
    pub fn is_valid(&self, map: &LevelMap) -> (b: bool)
        ensures
            b == self.wf(*map),
    {
        if self.linedefs.len() != map.linedefs.len() || self.sectors.len() != map.sectors.len() {
            return false;
        }
        let mut i: usize = 0;
        while i < self.sectors.len()
            invariant
                i <= self.sectors.len(),
                forall|k: int| 0 <= k < i ==> (#[trigger] self.sectors[k]).interval.wf(),
            decreases self.sectors.len() - i,
        {
            if !self.sectors[i].interval.is_valid() {
                return false;
            }
            i += 1;
        }
        let mut j: usize = 0;
        while j < self.linedefs.len()
            invariant
                j <= self.linedefs.len(),
                self.linedefs.len() == map.linedefs.len(),
                forall|k: int|
                    0 <= k < j ==> ((#[trigger] self.linedefs[k]).sidedefs[0] is Some
                        <==> map.linedefs[k].sidedefs[0] is Some),
            decreases self.linedefs.len() - j,
        {
            if self.linedefs[j].sidedefs[0].is_some() != map.linedefs[j].sidedefs[0].is_some() {
                return false;
            }
            j += 1;
        }
        true
    }
}

impl LevelMap {
    /// The point lies in the cell of leaf `k` below `child`: the part of the
    /// plane cut out for that leaf by the lines of the nodes from `child`
    /// down to it, the points on or behind a line going to its back child
    /// and the others to its front child.
    pub open spec fn in_cell(self, child: NodeChild, k: usize, p: Vec2) -> bool
        decreases self.height(child),
    {
        match child {
            NodeChild::Subsector(j) => j == k,
            NodeChild::Node(i) => {
                if self.nodes_wf() && i < self.nodes.len() {
                    if self.nodes[i as int].plane.spec_signed_distance(p) <= 0 {
                        self.in_cell(self.nodes[i as int].child_indices[1], k, p)
                    } else {
                        self.in_cell(self.nodes[i as int].child_indices[0], k, p)
                    }
                } else {
                    false
                }
            },
        }
    }

    /// The polygon of every subsector covers the part of its cell that lies
    /// in the level's rectangle. A level with room outside all its sectors
    /// inside its rectangle is not cut like this.
    pub open spec fn polygons_cover_cells(self) -> bool {
        forall|k: usize, p: Vec2|
            k < self.subsectors.len() && self.bbox.contains(p) && #[trigger] self.in_cell(
                Self::root(),
                k,
                p,
            ) ==> self.subsectors[k as int].spec_contains(p)
    }

    /// A descent for a point ends at the leaf in whose cell the point lies.
    pub proof fn lemma_descent_ends_in_cell(self, child: NodeChild, p: Vec2)
        requires
            self.nodes_wf(),
            self.child_ok(child),
        ensures
            forall|k: usize| (#[trigger] self.in_cell(child, k, p)) == (k == self.locate(child, p)),
        decreases self.height(child),
    {
        match child {
            NodeChild::Subsector(j) => {},
            NodeChild::Node(i) => {
                let n = self.nodes[i as int];
                let next = if n.plane.spec_signed_distance(p) <= 0 {
                    n.child_indices[1]
                } else {
                    n.child_indices[0]
                };
                self.lemma_descent_ends_in_cell(next, p);
                assert forall|k: usize|
                    (#[trigger] self.in_cell(child, k, p)) == (k == self.locate(child, p)) by {
                    assert(self.in_cell(child, k, p) == self.in_cell(next, k, p));
                }
            },
        }
    }

    /// In a level whose polygons cover their cells, the subsector found for
    /// a point of the level's rectangle is one whose polygon holds the point.
    pub proof fn lemma_found_polygon_holds_point(self, p: Vec2)
        requires
            self.nodes_wf(),
            self.polygons_cover_cells(),
            self.bbox.contains(p),
        ensures
            self.locate(Self::root(), p) < self.subsectors.len(),
            self.subsectors[self.locate(Self::root(), p) as int].spec_contains(p),
    {
        self.lemma_locate_in_bounds(Self::root(), p);
        self.lemma_descent_ends_in_cell(Self::root(), p);
        assert(self.in_cell(Self::root(), self.locate(Self::root(), p), p));
    }
}

} // verus!
