use vstd::prelude::*;
use crate::fixed::div_floor;
use crate::geometry::{Interval, AABB2};
use crate::world::Entity;

verus! {

/// How many times the rectangle of an index is quartered at most.
pub const MAX_DEPTH: usize = 8;

/// The entities among `entries` whose rectangle overlaps `region`, in the
/// order of the entries.
pub open spec fn overlapping(entries: Seq<(Entity, AABB2)>, region: AABB2) -> Seq<Entity>
    decreases entries.len(),
{
    if entries.len() == 0 {
        Seq::empty()
    } else {
        let rest = overlapping(entries.drop_last(), region);
        if entries.last().1.spec_overlaps(region) {
            rest.push(entries.last().0)
        } else {
            rest
        }
    }
}

/// Rectangle `a` lies within rectangle `b`.
pub open spec fn inside(a: AABB2, b: AABB2) -> bool {
    a.x.spec_is_inside(b.x) && a.y.spec_is_inside(b.y)
}

/// The point halfway between the ends of a range, rounded down.
pub open spec fn halfway(i: Interval) -> int {
    (i.min + i.max) / 2
}

/// Quarter `k` of a rectangle: 0 and 1 are the halves of lesser `x`, 0 and
/// 2 the halves of lesser `y`.
pub open spec fn quarter(b: AABB2, k: int) -> AABB2 {
    AABB2 {
        x: if k % 2 == 0 {
            Interval { min: b.x.min, max: halfway(b.x) as i64 }
        } else {
            Interval { min: halfway(b.x) as i64, max: b.x.max }
        },
        y: if k / 2 == 0 {
            Interval { min: b.y.min, max: halfway(b.y) as i64 }
        } else {
            Interval { min: halfway(b.y) as i64, max: b.y.max }
        },
    }
}

fn middle_of(i: Interval) -> (m: i64)
    requires
        i.min <= i.max,
    ensures
        m == halfway(i),
        i.min <= m <= i.max,
{
    div_floor(i.min as i128 + i.max as i128, 2) as i64
}

fn quarter_of(b: &AABB2, k: usize) -> (q: AABB2)
    requires
        k < 4,
        b.x.min <= b.x.max,
        b.y.min <= b.y.max,
    ensures
        q == quarter(*b, k as int),
        inside(q, *b),
{
    let mx = middle_of(b.x);
    let my = middle_of(b.y);
    AABB2 {
        x: if k % 2 == 0 {
            Interval { min: b.x.min, max: mx }
        } else {
            Interval { min: mx, max: b.x.max }
        },
        y: if k / 2 == 0 {
            Interval { min: b.y.min, max: my }
        } else {
            Interval { min: my, max: b.y.max }
        },
    }
}

fn lies_inside(a: &AABB2, b: &AABB2) -> (r: bool)
    ensures
        r == inside(*a, *b),
{
    a.x.is_inside(b.x) && a.y.is_inside(b.y)
}

/// How many entries an index takes: its nodes are counted in a machine
/// word, and an entry adds at most 32 of them.
pub const CAPACITY: usize = usize::MAX / 32 - 2;

/// A rectangle at depth `depth` can be quartered: it is not too deep, and
/// it has a side of no less than nothing each way.
pub open spec fn can_quarter(bbox: AABB2, depth: int) -> bool {
    depth < MAX_DEPTH && bbox.x.min <= bbox.x.max && bbox.y.min <= bbox.y.max
}

/// Where an entry with the rectangle `rect` goes from a rectangle of the
/// index: to the first of its four quarters that holds `rect` whole, or, with
/// 4, nowhere: it stays.
pub open spec fn quarter_for(bbox: AABB2, depth: int, rect: AABB2) -> int {
    if !can_quarter(bbox, depth) {
        4
    } else if inside(rect, quarter(bbox, 0)) {
        0
    } else if inside(rect, quarter(bbox, 1)) {
        1
    } else if inside(rect, quarter(bbox, 2)) {
        2
    } else if inside(rect, quarter(bbox, 3)) {
        3
    } else {
        4
    }
}

/// The entries of `log` that go to `to` from the rectangle `bbox` at depth
/// `depth`, in the order of the log.
pub open spec fn routed(log: Seq<(Entity, AABB2)>, bbox: AABB2, depth: int, to: int) -> Seq<
    (Entity, AABB2),
>
    decreases log.len(),
{
    if log.len() == 0 {
        Seq::empty()
    } else {
        let rest = routed(log.drop_last(), bbox, depth, to);
        if quarter_for(bbox, depth, log.last().1) == to {
            rest.push(log.last())
        } else {
            rest
        }
    }
}

/// The order in which an index for the rectangle `bbox` holds the entries
/// of `log`: first those that stay at the rectangle, then, quarter by quarter,
/// those that go to each quarter, in the order in which the quarter holds
/// them.
pub open spec fn arranged(log: Seq<(Entity, AABB2)>, bbox: AABB2, depth: int) -> Seq<
    (Entity, AABB2),
>
    decreases MAX_DEPTH - depth,
{
    if can_quarter(bbox, depth) {
        routed(log, bbox, depth, 4) + arranged(
            routed(log, bbox, depth, 0),
            quarter(bbox, 0),
            depth + 1,
        ) + arranged(routed(log, bbox, depth, 1), quarter(bbox, 1), depth + 1) + arranged(
            routed(log, bbox, depth, 2),
            quarter(bbox, 2),
            depth + 1,
        ) + arranged(routed(log, bbox, depth, 3), quarter(bbox, 3), depth + 1)
    } else {
        log
    }
}

/// No entry of the log has a rectangle that overlaps the region.
pub open spec fn none_overlaps(log: Seq<(Entity, AABB2)>, region: AABB2) -> bool {
    forall|j: int| 0 <= j < log.len() ==> !(#[trigger] log[j]).1.spec_overlaps(region)
}

/// What is found of two runs of entries is what is found of the one, then
/// what is found of the other.
pub proof fn lemma_overlapping_add(
    a: Seq<(Entity, AABB2)>,
    b: Seq<(Entity, AABB2)>,
    region: AABB2,
)
    ensures
        overlapping(a + b, region) == overlapping(a, region) + overlapping(b, region),
    decreases b.len(),
{
    if b.len() == 0 {
        assert(a + b =~= a);
        assert(overlapping(a, region) + overlapping(b, region) =~= overlapping(a, region));
    } else {
        lemma_overlapping_add(a, b.drop_last(), region);
        assert((a + b).drop_last() =~= a + b.drop_last());
        assert((a + b).last() == b.last());
        assert(overlapping(a + b, region) =~= overlapping(a, region) + overlapping(b, region));
    }
}

/// Nothing is found among entries of which none overlaps the region.
pub proof fn lemma_overlapping_none(log: Seq<(Entity, AABB2)>, region: AABB2)
    requires
        none_overlaps(log, region),
    ensures
        overlapping(log, region).len() == 0,
    decreases log.len(),
{
    if log.len() > 0 {
        assert(log.last() == log[log.len() - 1]);
        assert forall|j: int| 0 <= j < log.drop_last().len() implies !(
        #[trigger] log.drop_last()[j]).1.spec_overlaps(region) by {
            assert(log.drop_last()[j] == log[j]);
        }
        lemma_overlapping_none(log.drop_last(), region);
    }
}

/// The entries that go one way are entries of the log; those that go to a
/// quarter lie within it. If the rectangle cannot be quartered, all stay.
pub proof fn lemma_routed(log: Seq<(Entity, AABB2)>, bbox: AABB2, depth: int, to: int)
    ensures
        forall|j: int|
            0 <= j < routed(log, bbox, depth, to).len() ==> log.contains(
                #[trigger] routed(log, bbox, depth, to)[j],
            ) && quarter_for(bbox, depth, routed(log, bbox, depth, to)[j].1) == to,
        !can_quarter(bbox, depth) && to == 4 ==> routed(log, bbox, depth, to) == log,
        !can_quarter(bbox, depth) && to != 4 ==> routed(log, bbox, depth, to).len() == 0,
        log.len() == 0 ==> routed(log, bbox, depth, to).len() == 0,
    decreases log.len(),
{
    if log.len() > 0 {
        let init = log.drop_last();
        lemma_routed(init, bbox, depth, to);
        let r = routed(log, bbox, depth, to);
        let r0 = routed(init, bbox, depth, to);
        assert forall|j: int| 0 <= j < r.len() implies log.contains(#[trigger] r[j])
            && quarter_for(bbox, depth, r[j].1) == to by {
            if j < r0.len() {
                assert(r[j] == r0[j]);
                let w = choose|w: int| 0 <= w < init.len() && init[w] == r0[j];
                assert(log[w] == r[j]);
            } else {
                assert(r[j] == log.last());
                assert(log[log.len() - 1] == r[j]);
            }
        }
        if !can_quarter(bbox, depth) && to == 4 {
            assert(r =~= log);
        }
    }
}

/// Nothing is found in a region among the entries of an index of which none
/// overlaps the region, however they are arranged.
pub proof fn lemma_arranged_none(
    log: Seq<(Entity, AABB2)>,
    bbox: AABB2,
    depth: int,
    region: AABB2,
)
    requires
        none_overlaps(log, region),
        0 <= depth,
    ensures
        overlapping(arranged(log, bbox, depth), region).len() == 0,
    decreases MAX_DEPTH - depth,
{
    if can_quarter(bbox, depth) {
        let own = routed(log, bbox, depth, 4);
        let l0 = routed(log, bbox, depth, 0);
        let l1 = routed(log, bbox, depth, 1);
        let l2 = routed(log, bbox, depth, 2);
        let l3 = routed(log, bbox, depth, 3);
        lemma_routed_none(log, bbox, depth, 4, region);
        lemma_routed_none(log, bbox, depth, 0, region);
        lemma_routed_none(log, bbox, depth, 1, region);
        lemma_routed_none(log, bbox, depth, 2, region);
        lemma_routed_none(log, bbox, depth, 3, region);
        lemma_overlapping_none(own, region);
        let a0 = arranged(l0, quarter(bbox, 0), depth + 1);
        let a1 = arranged(l1, quarter(bbox, 1), depth + 1);
        let a2 = arranged(l2, quarter(bbox, 2), depth + 1);
        let a3 = arranged(l3, quarter(bbox, 3), depth + 1);
        lemma_arranged_none(l0, quarter(bbox, 0), depth + 1, region);
        lemma_arranged_none(l1, quarter(bbox, 1), depth + 1, region);
        lemma_arranged_none(l2, quarter(bbox, 2), depth + 1, region);
        lemma_arranged_none(l3, quarter(bbox, 3), depth + 1, region);
        lemma_overlapping_add(own, a0, region);
        lemma_overlapping_add(own + a0, a1, region);
        lemma_overlapping_add(own + a0 + a1, a2, region);
        lemma_overlapping_add(own + a0 + a1 + a2, a3, region);
    } else {
        lemma_overlapping_none(log, region);
    }
}

/// Of entries of which none overlaps a region, none that goes one way does.
pub proof fn lemma_routed_none(
    log: Seq<(Entity, AABB2)>,
    bbox: AABB2,
    depth: int,
    to: int,
    region: AABB2,
)
    requires
        none_overlaps(log, region),
    ensures
        none_overlaps(routed(log, bbox, depth, to), region),
{
    lemma_routed(log, bbox, depth, to);
    let r = routed(log, bbox, depth, to);
    assert forall|j: int| 0 <= j < r.len() implies !(#[trigger] r[j]).1.spec_overlaps(region) by {
        assert(log.contains(r[j]));
        let w = choose|w: int| 0 <= w < log.len() && log[w] == r[j];
        assert(!log[w].1.spec_overlaps(region));
    }
}

/// What goes to a quarter that does not overlap a region does not overlap
/// it either.
pub proof fn lemma_quarter_apart(
    log: Seq<(Entity, AABB2)>,
    bbox: AABB2,
    depth: int,
    k: int,
    region: AABB2,
)
    requires
        0 <= k < 4,
        !quarter(bbox, k).spec_overlaps(region),
    ensures
        none_overlaps(routed(log, bbox, depth, k), region),
{
    lemma_routed(log, bbox, depth, k);
    let r = routed(log, bbox, depth, k);
    assert forall|j: int| 0 <= j < r.len() implies !(#[trigger] r[j]).1.spec_overlaps(region) by {
        assert(quarter_for(bbox, depth, r[j].1) == k);
        assert(inside(r[j].1, quarter(bbox, k)));
    }
}

/// One rectangle of the index: what is stored at it, and where its four
/// quarters are, if it has been quartered.
struct QuadNode {
    bbox: AABB2,
    depth: usize,
    parent: usize,
    /// The position of the first of the four quarters, which stand in a row.
    children: Option<usize>,
    entries: Vec<(Entity, AABB2)>,
}

/// A node without what is stored at it.
struct Shape {
    bbox: AABB2,
    depth: int,
    parent: int,
    children: Option<int>,
}

spec fn shapes(nodes: Seq<QuadNode>) -> Seq<Shape> {
    Seq::new(
        nodes.len(),
        |i: int|
            Shape {
                bbox: nodes[i].bbox,
                depth: nodes[i].depth as int,
                parent: nodes[i].parent as int,
                children: match nodes[i].children {
                    Some(c) => Some(c as int),
                    None => None,
                },
            },
    )
}

/// Node `i` hangs together with the rest: the root is at depth 0; any other
/// node comes after its parent, of which it is a quarter, one deeper; a
/// node's own quarters come after it, and it has them only if it can be
/// quartered.
spec fn shape_ok(sh: Seq<Shape>, i: int) -> bool {
    let n = sh[i];
    &&& i == 0 ==> n.depth == 0
    &&& i > 0 ==> {
        &&& 0 <= n.parent < i
        &&& sh[n.parent].children matches Some(c)
        &&& c <= i < c + 4
        &&& n.bbox == quarter(sh[n.parent].bbox, i - c)
        &&& n.depth == sh[n.parent].depth + 1
    }
    &&& 0 <= n.depth <= MAX_DEPTH
    &&& n.children matches Some(c) ==> {
        &&& i < c
        &&& c + 4 <= sh.len()
        &&& can_quarter(n.bbox, n.depth)
        &&& forall|k: int| c <= k < c + 4 ==> (#[trigger] sh[k]).parent == i
    }
}

/// The entries of the log that come by node `i` on their way down.
spec fn assigned(sh: Seq<Shape>, i: int, log: Seq<(Entity, AABB2)>) -> Seq<(Entity, AABB2)>
    decreases i,
{
    if 0 < i < sh.len() && 0 <= sh[i].parent < i && sh[sh[i].parent].children is Some {
        let p = sh[i].parent;
        routed(assigned(sh, p, log), sh[p].bbox, sh[p].depth, i - sh[p].children->0)
    } else {
        log
    }
}

/// An entry with the rectangle `rect` comes by node `i` on its way down.
spec fn reaches(sh: Seq<Shape>, i: int, rect: AABB2) -> bool
    decreases i,
{
    if 0 < i < sh.len() && 0 <= sh[i].parent < i && sh[sh[i].parent].children is Some {
        let p = sh[i].parent;
        reaches(sh, p, rect) && quarter_for(sh[p].bbox, sh[p].depth, rect) == i
            - sh[p].children->0
    } else {
        i == 0
    }
}

/// Node `i` stores the entries that come by it and stay; if it has no
/// quarters, none that came by it went on.
spec fn holds_ok(nodes: Seq<QuadNode>, i: int, log: Seq<(Entity, AABB2)>) -> bool {
    let sh = shapes(nodes);
    let mine = assigned(sh, i, log);
    &&& nodes[i].entries@ == routed(mine, sh[i].bbox, sh[i].depth, 4)
    &&& sh[i].children is None ==> forall|k: int|
        0 <= k < 4 ==> (#[trigger] routed(mine, sh[i].bbox, sh[i].depth, k)).len() == 0
}

/// The quarters of every node that has any come after the node.
spec fn links_ok(nodes: Seq<QuadNode>) -> bool {
    forall|i: int|
        0 <= i < nodes.len() ==> ((#[trigger] nodes[i]).children matches Some(c) ==> i < c && c + 4
            <= nodes.len())
}

spec fn tree_ok(nodes: Seq<QuadNode>, log: Seq<(Entity, AABB2)>) -> bool {
    &&& nodes.len() >= 1
    &&& forall|i: int| 0 <= i < nodes.len() ==> #[trigger] shape_ok(shapes(nodes), i)
    &&& forall|i: int| 0 <= i < nodes.len() ==> #[trigger] holds_ok(nodes, i, log)
}

/// What a search from node `i` finds in `region`: what is stored at the node
/// itself, then what is found from each quarter that overlaps the region.
spec fn collected(nodes: Seq<QuadNode>, i: int, region: AABB2) -> Seq<Entity>
    decreases nodes.len() - i, 0nat,
{
    if 0 <= i < nodes.len() {
        let own = overlapping(nodes[i].entries@, region);
        match nodes[i].children {
            Some(c) => if i < c && c + 4 <= nodes.len() {
                own + below(nodes, c as int, region) + below(nodes, c + 1, region) + below(
                    nodes,
                    c + 2,
                    region,
                ) + below(nodes, c + 3, region)
            } else {
                own
            },
            None => own,
        }
    } else {
        Seq::empty()
    }
}

/// What a search finds from node `j`, if its rectangle overlaps the region.
spec fn below(nodes: Seq<QuadNode>, j: int, region: AABB2) -> Seq<Entity>
    decreases nodes.len() - j, 1nat,
{
    if 0 <= j < nodes.len() && nodes[j].bbox.spec_overlaps(region) {
        collected(nodes, j, region)
    } else {
        Seq::empty()
    }
}

/// What a search from a node finds is what is found among the entries that
/// come by the node, in the order in which an index for the node's rectangle
/// holds them.
proof fn lemma_collected(nodes: Seq<QuadNode>, log: Seq<(Entity, AABB2)>, i: int, region: AABB2)
    requires
        tree_ok(nodes, log),
        0 <= i < nodes.len(),
    ensures
        collected(nodes, i, region) == overlapping(
            arranged(assigned(shapes(nodes), i, log), nodes[i].bbox, nodes[i].depth as int),
            region,
        ),
    decreases nodes.len() - i,
{
    let sh = shapes(nodes);
    let mine = assigned(sh, i, log);
    let b = nodes[i].bbox;
    let d = nodes[i].depth as int;
    assert(shape_ok(sh, i));
    assert(holds_ok(nodes, i, log));
    let own = routed(mine, b, d, 4);
    assert(nodes[i].entries@ == own);
    if can_quarter(b, d) {
        let l0 = routed(mine, b, d, 0);
        let l1 = routed(mine, b, d, 1);
        let l2 = routed(mine, b, d, 2);
        let l3 = routed(mine, b, d, 3);
        let a0 = arranged(l0, quarter(b, 0), d + 1);
        let a1 = arranged(l1, quarter(b, 1), d + 1);
        let a2 = arranged(l2, quarter(b, 2), d + 1);
        let a3 = arranged(l3, quarter(b, 3), d + 1);
        lemma_overlapping_add(own, a0, region);
        lemma_overlapping_add(own + a0, a1, region);
        lemma_overlapping_add(own + a0 + a1, a2, region);
        lemma_overlapping_add(own + a0 + a1 + a2, a3, region);
        match nodes[i].children {
            Some(c) => {
                lemma_below(nodes, log, i, 0, region);
                lemma_below(nodes, log, i, 1, region);
                lemma_below(nodes, log, i, 2, region);
                lemma_below(nodes, log, i, 3, region);
            },
            None => {
                assert(l0.len() == 0 && l1.len() == 0 && l2.len() == 0 && l3.len() == 0);
                lemma_arranged_none(l0, quarter(b, 0), d + 1, region);
                lemma_arranged_none(l1, quarter(b, 1), d + 1, region);
                lemma_arranged_none(l2, quarter(b, 2), d + 1, region);
                lemma_arranged_none(l3, quarter(b, 3), d + 1, region);
                assert(overlapping(a0, region) =~= Seq::<Entity>::empty());
                assert(overlapping(a1, region) =~= Seq::<Entity>::empty());
                assert(overlapping(a2, region) =~= Seq::<Entity>::empty());
                assert(overlapping(a3, region) =~= Seq::<Entity>::empty());
                assert(overlapping(own, region) + Seq::<Entity>::empty() + Seq::<Entity>::empty()
                    + Seq::<Entity>::empty() + Seq::<Entity>::empty() =~= overlapping(own, region));
            },
        }
    } else {
        lemma_routed(mine, b, d, 4);
    }
}

/// What a search finds from quarter `k` of node `i` is what is found among
/// the entries that go to that quarter.
proof fn lemma_below(
    nodes: Seq<QuadNode>,
    log: Seq<(Entity, AABB2)>,
    i: int,
    k: int,
    region: AABB2,
)
    requires
        tree_ok(nodes, log),
        0 <= i < nodes.len(),
        0 <= k < 4,
        nodes[i].children is Some,
    ensures
        below(nodes, nodes[i].children->0 + k, region) == overlapping(
            arranged(
                routed(assigned(shapes(nodes), i, log), nodes[i].bbox, nodes[i].depth as int, k),
                quarter(nodes[i].bbox, k),
                nodes[i].depth + 1,
            ),
            region,
        ),
    decreases nodes.len() - i, 0nat,
{
    let sh = shapes(nodes);
    let c = nodes[i].children->0 as int;
    let j = c + k;
    assert(shape_ok(sh, i));
    assert(sh[j].parent == i);
    assert(shape_ok(sh, j));
    let mine = assigned(sh, i, log);
    let part = routed(mine, nodes[i].bbox, nodes[i].depth as int, k);
    assert(assigned(sh, j, log) == part);
    if nodes[j].bbox.spec_overlaps(region) {
        lemma_collected(nodes, log, j, region);
    } else {
        lemma_quarter_apart(mine, nodes[i].bbox, nodes[i].depth as int, k, region);
        lemma_arranged_none(part, quarter(nodes[i].bbox, k), nodes[i].depth + 1, region);
        assert(overlapping(
            arranged(part, quarter(nodes[i].bbox, k), nodes[i].depth + 1),
            region,
        ) =~= Seq::<Entity>::empty());
    }
}

/// An index of entities by the plan-view rectangle each one fills, for
/// finding what is near a place. The rectangle it is made for is quartered
/// again and again; an entity is stored at the smallest quarter that holds
/// its rectangle whole, so that a search can pass over every quarter that
/// the region searched does not touch.
pub struct Quadtree {
    nodes: Vec<QuadNode>,
    log: Ghost<Seq<(Entity, AABB2)>>,
    count: usize,
}

impl Quadtree {
    #[verifier::type_invariant]
    spec fn inv(self) -> bool {
        &&& tree_ok(self.nodes@, self.log@)
        &&& self.count == self.log@.len()
        &&& self.count <= CAPACITY
        &&& self.nodes.len() <= 1 + 32 * self.count
    }

    /// The entities of the index with their rectangles, in the order in
    /// which they were put in.
    pub closed spec fn view(self) -> Seq<(Entity, AABB2)> {
        self.log@
    }

    /// The rectangle the index was made for.
    pub closed spec fn extent(self) -> AABB2 {
        self.nodes[0].bbox
    }

    /// An empty index for the rectangle `bbox`.
    pub fn new(bbox: AABB2) -> (q: Quadtree)
        ensures
            q@.len() == 0,
            q.extent() == bbox,
    {
        let mut nodes: Vec<QuadNode> = Vec::new();
        nodes.push(QuadNode { bbox, depth: 0, parent: 0, children: None, entries: Vec::new() });
        proof {
            let log = Seq::<(Entity, AABB2)>::empty();
            assert(shape_ok(shapes(nodes@), 0));
            assert(assigned(shapes(nodes@), 0, log) == log);
            assert(holds_ok(nodes@, 0, log));
        }
        Quadtree { nodes, log: Ghost(Seq::empty()), count: 0 }
    }

    /// How many entries the index holds.
    pub fn len(&self) -> (n: usize)
        ensures
            n == self@.len(),
            n <= CAPACITY,
    {
        proof {
            use_type_invariant(self);
        }
        self.count
    }

    /// Puts `entity` into the index with the rectangle `bbox`.
    pub fn insert(&mut self, entity: Entity, bbox: &AABB2)
        requires
            old(self)@.len() < CAPACITY,
        ensures
            final(self)@ == old(self)@.push((entity, *bbox)),
            final(self).extent() == old(self).extent(),
    {
        proof {
            use_type_invariant(&*self);
        }
        let mut taken = Quadtree::new(*bbox);
        std::mem::swap(self, &mut taken);
        let Quadtree { nodes, log, count } = taken;
        let mut nodes = nodes;
        let i = descend(&mut nodes, Ghost(log@), bbox);
        let ghost grown = nodes@;
        let mut entries: Vec<(Entity, AABB2)> = Vec::new();
        std::mem::swap(&mut entries, &mut nodes[i].entries);
        entries.push((entity, *bbox));
        std::mem::swap(&mut entries, &mut nodes[i].entries);
        proof {
            assert(shapes(nodes@) =~= shapes(grown));
            lemma_stored(grown, nodes@, log@, (entity, *bbox), i as int);
        }
        *self = Quadtree { nodes, log: Ghost(log@.push((entity, *bbox))), count: count + 1 };
    }

    /// The rectangle the index was made for.
    pub fn bbox(&self) -> (b: AABB2)
        ensures
            b == self.extent(),
    {
        proof {
            use_type_invariant(self);
        }
        self.nodes[0].bbox
    }

    /// The entities whose rectangle overlaps `region`, in the order in
    /// which the index holds them.
    pub fn query(&self, region: &AABB2) -> (r: Vec<Entity>)
        ensures
            r@ == overlapping(arranged(self@, self.extent(), 0), *region),
    {
        proof {
            use_type_invariant(self);
        }
        let mut found: Vec<Entity> = Vec::new();
        proof {
            assert forall|i: int| 0 <= i < self.nodes.len() implies ((
            #[trigger] self.nodes@[i]).children matches Some(c) ==> i < c && c + 4
                <= self.nodes.len()) by {
                assert(shape_ok(shapes(self.nodes@), i));
            }
        }
        collect(&self.nodes, 0, region, &mut found);
        proof {
            assert(found@ =~= collected(self.nodes@, 0, *region));
            lemma_collected(self.nodes@, self.log@, 0, *region);
            assert(shape_ok(shapes(self.nodes@), 0));
        }
        found
    }
}

/// Searches from node `i`.
#[verifier::rlimit(60)]
fn collect(nodes: &Vec<QuadNode>, i: usize, region: &AABB2, out: &mut Vec<Entity>)
    requires
        i < nodes.len(),
        links_ok(nodes@),
    ensures
        final(out)@ == old(out)@ + collected(nodes@, i as int, *region),
    decreases nodes.len() - i,
{
    let node = &nodes[i];
    let mut j: usize = 0;
    assert(node.entries@.take(0) =~= Seq::<(Entity, AABB2)>::empty());
    while j < node.entries.len()
        invariant
            j <= node.entries.len(),
            out@ == old(out)@ + overlapping(node.entries@.take(j as int), *region),
        decreases node.entries.len() - j,
    {
        let entry = node.entries[j];
        proof {
            let now = node.entries@.take(j + 1);
            assert(now.drop_last() =~= node.entries@.take(j as int));
            assert(now.last() == node.entries@[j as int]);
        }
        if entry.1.overlaps(region) {
            out.push(entry.0);
        }
        assert(out@ =~= old(out)@ + overlapping(node.entries@.take(j + 1), *region));
        j += 1;
    }
    assert(node.entries@.take(j as int) =~= node.entries@);
    if let Some(c) = node.children {
        let ghost s0 = out@;
        if nodes[c].bbox.overlaps(region) {
            collect(nodes, c, region, out);
        }
        let ghost s1 = out@;
        assert(s1 == s0 + below(nodes@, c as int, *region));
        if nodes[c + 1].bbox.overlaps(region) {
            collect(nodes, c + 1, region, out);
        }
        let ghost s2 = out@;
        assert(s2 == s1 + below(nodes@, c + 1, *region));
        if nodes[c + 2].bbox.overlaps(region) {
            collect(nodes, c + 2, region, out);
        }
        let ghost s3 = out@;
        assert(s3 == s2 + below(nodes@, c + 2, *region));
        if nodes[c + 3].bbox.overlaps(region) {
            collect(nodes, c + 3, region, out);
        }
        assert(out@ == s3 + below(nodes@, c + 3, *region));
        assert(out@ =~= old(out)@ + collected(nodes@, i as int, *region));
    }
}

/// The shapes are those of `before`, but that node `i`, which had no
/// quarters, has got its four, at the end.
spec fn quartered(before: Seq<Shape>, after: Seq<Shape>, i: int) -> bool {
    let c = before.len() as int;
    &&& 0 <= i < c
    &&& after.len() == c + 4
    &&& before[i].children is None
    &&& can_quarter(before[i].bbox, before[i].depth)
    &&& after[i] == (Shape { children: Some(c), ..before[i] })
    &&& forall|m: int| 0 <= m < c && m != i ==> #[trigger] after[m] == before[m]
    &&& forall|k: int|
        0 <= k < 4 ==> #[trigger] after[c + k] == (Shape {
            bbox: quarter(before[i].bbox, k),
            depth: before[i].depth + 1,
            parent: i,
            children: None,
        })
}

/// Quartering a node changes nothing for the nodes that were there.
proof fn lemma_quartered_same(
    before: Seq<Shape>,
    after: Seq<Shape>,
    i: int,
    j: int,
    log: Seq<(Entity, AABB2)>,
    rect: AABB2,
)
    requires
        quartered(before, after, i),
        forall|m: int| 0 <= m < before.len() ==> #[trigger] shape_ok(before, m),
        0 <= j < before.len(),
    ensures
        assigned(after, j, log) == assigned(before, j, log),
        reaches(after, j, rect) == reaches(before, j, rect),
    decreases j,
{
    assert(shape_ok(before, j));
    if j > 0 {
        let p = before[j].parent;
        assert(before[p].children is Some);
        assert(p != i);
        assert(after[p] == before[p]);
        assert(after[j].parent == p);
        lemma_quartered_same(before, after, i, p, log, rect);
    }
}

/// Whether an entry comes by a node on its way down decides whether the
/// node's share of the log grows with the entry.
proof fn lemma_assigned_push(
    sh: Seq<Shape>,
    log: Seq<(Entity, AABB2)>,
    entry: (Entity, AABB2),
    j: int,
)
    requires
        forall|m: int| 0 <= m < sh.len() ==> #[trigger] shape_ok(sh, m),
        0 <= j < sh.len(),
    ensures
        assigned(sh, j, log.push(entry)) == if reaches(sh, j, entry.1) {
            assigned(sh, j, log).push(entry)
        } else {
            assigned(sh, j, log)
        },
    decreases j,
{
    assert(shape_ok(sh, j));
    if j > 0 {
        let p = sh[j].parent;
        lemma_assigned_push(sh, log, entry, p);
        let k = j - sh[p].children->0;
        let mine = assigned(sh, p, log);
        if reaches(sh, p, entry.1) {
            assert(mine.push(entry).drop_last() =~= mine);
            assert(mine.push(entry).last() == entry);
        }
    }
}

/// Of two nodes that an entry comes by, the one no deeper than the other is
/// the other itself or sends the entry on to one of its quarters.
proof fn lemma_reach_down(sh: Seq<Shape>, rect: AABB2, j: int, i: int)
    requires
        forall|m: int| 0 <= m < sh.len() ==> #[trigger] shape_ok(sh, m),
        0 <= j < sh.len(),
        0 <= i < sh.len(),
        reaches(sh, j, rect),
        reaches(sh, i, rect),
        sh[j].depth <= sh[i].depth,
    ensures
        j == i || (sh[j].children is Some && quarter_for(sh[j].bbox, sh[j].depth, rect) < 4),
    decreases i,
{
    assert(shape_ok(sh, j));
    assert(shape_ok(sh, i));
    if sh[j].depth == sh[i].depth {
        lemma_same_depth(sh, rect, j, i);
    } else {
        let p = sh[i].parent;
        assert(shape_ok(sh, p));
        lemma_reach_down(sh, rect, j, p);
    }
}

/// An entry comes by one node of each depth only.
proof fn lemma_same_depth(sh: Seq<Shape>, rect: AABB2, j: int, i: int)
    requires
        forall|m: int| 0 <= m < sh.len() ==> #[trigger] shape_ok(sh, m),
        0 <= j < sh.len(),
        0 <= i < sh.len(),
        reaches(sh, j, rect),
        reaches(sh, i, rect),
        sh[j].depth == sh[i].depth,
    ensures
        j == i,
    decreases i,
{
    assert(shape_ok(sh, j));
    assert(shape_ok(sh, i));
    if i > 0 && j > 0 {
        let p = sh[i].parent;
        let q = sh[j].parent;
        assert(shape_ok(sh, p));
        assert(shape_ok(sh, q));
        lemma_same_depth(sh, rect, q, p);
    } else if i > 0 {
        assert(shape_ok(sh, sh[i].parent));
    } else if j > 0 {
        assert(shape_ok(sh, sh[j].parent));
    }
}

/// Storing an entry at the node where its way down ends keeps the index in
/// order, for the log with the entry at its end.
proof fn lemma_stored(
    before: Seq<QuadNode>,
    after: Seq<QuadNode>,
    log: Seq<(Entity, AABB2)>,
    entry: (Entity, AABB2),
    i: int,
)
    requires
        tree_ok(before, log),
        0 <= i < before.len(),
        reaches(shapes(before), i, entry.1),
        quarter_for(before[i].bbox, before[i].depth as int, entry.1) == 4,
        shapes(after) == shapes(before),
        after.len() == before.len(),
        after[i].entries@ == before[i].entries@.push(entry),
        forall|m: int| 0 <= m < before.len() && m != i ==> (#[trigger] after[m]).entries@
            == before[m].entries@,
    ensures
        tree_ok(after, log.push(entry)),
{
    let sh = shapes(before);
    let longer = log.push(entry);
    assert forall|m: int| 0 <= m < after.len() implies #[trigger] shape_ok(shapes(after), m) by {
        assert(shape_ok(sh, m));
    }
    assert forall|m: int| 0 <= m < after.len() implies #[trigger] holds_ok(after, m, longer) by {
        assert(holds_ok(before, m, log));
        assert(shape_ok(sh, m));
        lemma_assigned_push(sh, log, entry, m);
        let mine = assigned(sh, m, log);
        let b = sh[m].bbox;
        let d = sh[m].depth;
        if reaches(sh, m, entry.1) {
            let more = mine.push(entry);
            assert(more.drop_last() =~= mine);
            assert(more.last() == entry);
            if sh[m].depth <= sh[i].depth {
                lemma_reach_down(sh, entry.1, m, i);
            } else {
                lemma_reach_down(sh, entry.1, i, m);
            }
            if m == i {
                assert forall|k: int| 0 <= k < 4 implies (#[trigger] routed(more, b, d, k)).len()
                    == routed(mine, b, d, k).len() by {}
            } else {
                assert(quarter_for(b, d, entry.1) < 4);
                assert(sh[m].children is Some);
            }
        }
    }
}

/// Finds the node where the way down of an entry with the rectangle `rect`
/// ends, quartering rectangles as the entry needs them.
fn descend(nodes: &mut Vec<QuadNode>, log: Ghost<Seq<(Entity, AABB2)>>, rect: &AABB2) -> (i: usize)
    requires
        tree_ok(old(nodes)@, log@),
        old(nodes).len() + 32 <= usize::MAX,
    ensures
        tree_ok(final(nodes)@, log@),
        i < final(nodes).len(),
        reaches(shapes(final(nodes)@), i as int, *rect),
        quarter_for(final(nodes)@[i as int].bbox, final(nodes)@[i as int].depth as int, *rect) == 4,
        final(nodes).len() <= old(nodes).len() + 32,
        final(nodes)@[0].bbox == old(nodes)@[0].bbox,
{
    let mut i: usize = 0;
    let mut depth: usize = nodes[0].depth;
    assert(shape_ok(shapes(nodes@), 0));
    loop
        invariant
            tree_ok(nodes@, log@),
            i < nodes.len(),
            depth == nodes@[i as int].depth,
            depth <= MAX_DEPTH,
            reaches(shapes(nodes@), i as int, *rect),
            nodes.len() <= old(nodes).len() + 4 * depth,
            old(nodes).len() + 32 <= usize::MAX,
            nodes@[0].bbox == old(nodes)@[0].bbox,
        decreases MAX_DEPTH - depth,
    {
        assert(shape_ok(shapes(nodes@), i as int));
        assert(holds_ok(nodes@, i as int, log@));
        let b = nodes[i].bbox;
        if depth >= MAX_DEPTH || b.x.min > b.x.max || b.y.min > b.y.max {
            return i;
        }
        let mut k: usize = 0;
        while k < 4 && !lies_inside(rect, &quarter_of(&b, k))
            invariant
                k <= 4,
                b.x.min <= b.x.max,
                b.y.min <= b.y.max,
                forall|m: int| 0 <= m < k ==> !inside(*rect, #[trigger] quarter(b, m)),
            decreases 4 - k,
        {
            k += 1;
        }
        if k == 4 {
            return i;
        }
        assert(quarter_for(b, depth as int, *rect) == k);
        let c = match nodes[i].children {
            Some(c) => c,
            None => {
                let c = nodes.len();
                let ghost start = nodes@;
                let mut q: usize = 0;
                while q < 4
                    invariant
                        q <= 4,
                        i < c,
                        c + 4 <= usize::MAX,
                        start.len() == c,
                        nodes.len() == c + q,
                        b == start[i as int].bbox,
                        depth == start[i as int].depth,
                        depth < MAX_DEPTH,
                        b.x.min <= b.x.max,
                        b.y.min <= b.y.max,
                        forall|m: int| 0 <= m < c ==> #[trigger] nodes@[m] == start[m],
                        forall|m: int|
                            c <= m < c + q ==> {
                                &&& (#[trigger] nodes@[m]).bbox == quarter(b, m - c)
                                &&& nodes@[m].depth == depth + 1
                                &&& nodes@[m].parent == i
                                &&& nodes@[m].children is None
                                &&& nodes@[m].entries@.len() == 0
                            },
                    decreases 4 - q,
                {
                    nodes.push(
                        QuadNode {
                            bbox: quarter_of(&b, q),
                            depth: depth + 1,
                            parent: i,
                            children: None,
                            entries: Vec::new(),
                        },
                    );
                    q += 1;
                }
                nodes[i].children = Some(c);
                proof {
                    lemma_quartered(start, nodes@, i as int, log@, *rect);
                }
                c
            },
        };
        assert(shape_ok(shapes(nodes@), i as int));
        assert(shapes(nodes@)[(c + k) as int].parent == i);
        assert(shape_ok(shapes(nodes@), (c + k) as int));
        i = c + k;
        depth = nodes[i].depth;
    }
}

/// Giving a node that has none its four quarters, with nothing stored at
/// them, keeps the index in order.
proof fn lemma_quartered(
    before: Seq<QuadNode>,
    after: Seq<QuadNode>,
    i: int,
    log: Seq<(Entity, AABB2)>,
    rect: AABB2,
)
    requires
        tree_ok(before, log),
        quartered(shapes(before), shapes(after), i),
        forall|m: int| 0 <= m < before.len() ==> (#[trigger] after[m]).entries@ == before[m].entries@,
        forall|m: int| before.len() <= m < after.len() ==> (#[trigger] after[m]).entries@.len() == 0,
    ensures
        tree_ok(after, log),
        reaches(shapes(after), i, rect) == reaches(shapes(before), i, rect),
{
    let sb = shapes(before);
    let sa = shapes(after);
    let c = before.len() as int;
    assert(shape_ok(sb, i));
    assert(holds_ok(before, i, log));
    lemma_quartered_same(sb, sa, i, i, log, rect);
    assert forall|m: int| 0 <= m < after.len() implies #[trigger] shape_ok(sa, m) by {
        if m < c {
            assert(shape_ok(sb, m));
            if m > 0 {
                let p = sb[m].parent;
                assert(sb[p].children is Some);
                assert(p != i);
                assert(sa[p] == sb[p]);
            }
            if m == i {
                assert forall|k: int| c <= k < c + 4 implies (#[trigger] sa[k]).parent == i by {
                    assert(sa[c + (k - c)].parent == i);
                }
            } else {
                assert(sa[m] == sb[m]);
            }
        } else {
            assert(sa[c + (m - c)].parent == i);
        }
    }
    assert forall|m: int| 0 <= m < after.len() implies #[trigger] holds_ok(after, m, log) by {
        if m < c {
            assert(holds_ok(before, m, log));
            lemma_quartered_same(sb, sa, i, m, log, rect);
        } else {
            let k = m - c;
            assert(sa[c + k].parent == i);
            let mine = assigned(sa, m, log);
            assert(mine == routed(assigned(sa, i, log), sa[i].bbox, sa[i].depth, k));
            assert(routed(assigned(sb, i, log), sb[i].bbox, sb[i].depth, k).len() == 0);
            assert(mine.len() == 0);
            lemma_routed(mine, sa[m].bbox, sa[m].depth, 4);
            assert(after[m].entries@ =~= routed(mine, sa[m].bbox, sa[m].depth, 4));
            assert forall|q: int| 0 <= q < 4 implies (#[trigger] routed(
                mine,
                sa[m].bbox,
                sa[m].depth,
                q,
            )).len() == 0 by {
                lemma_routed(mine, sa[m].bbox, sa[m].depth, q);
            }
        }
    }
}

/// An entity is among those found in a region exactly when the entries hold
/// it with a rectangle that overlaps the region.
pub proof fn lemma_overlapping_contains(entries: Seq<(Entity, AABB2)>, region: AABB2, e: Entity)
    ensures
        overlapping(entries, region).contains(e) <==> exists|i: int|
            0 <= i < entries.len() && (#[trigger] entries[i]).0 == e && entries[i].1.spec_overlaps(
                region,
            ),
    decreases entries.len(),
{
    if entries.len() > 0 {
        let init = entries.drop_last();
        let last = entries.len() - 1;
        lemma_overlapping_contains(init, region, e);
        let found = overlapping(entries, region);
        let rest = overlapping(init, region);
        if found.contains(e) {
            if rest.contains(e) {
                let i = choose|i: int|
                    0 <= i < init.len() && (#[trigger] init[i]).0 == e && init[i].1.spec_overlaps(
                        region,
                    );
                assert(entries[i] == init[i]);
            } else {
                let j = choose|j: int| 0 <= j < found.len() && found[j] == e;
                assert(j == rest.len());
                assert(entries[last].0 == e);
            }
        }
        if exists|i: int|
            0 <= i < entries.len() && (#[trigger] entries[i]).0 == e && entries[i].1.spec_overlaps(
                region,
            ) {
            let i = choose|i: int|
                0 <= i < entries.len() && (#[trigger] entries[i]).0 == e
                    && entries[i].1.spec_overlaps(region);
            if i < last {
                assert(init[i] == entries[i]);
                let j = choose|j: int| 0 <= j < rest.len() && rest[j] == e;
                assert(found[j] == e);
            } else {
                assert(found[rest.len() as int] == e);
            }
        }
    }
}

/// The entries that go one way are those of the log that go that way.
pub proof fn lemma_routed_contains(
    log: Seq<(Entity, AABB2)>,
    bbox: AABB2,
    depth: int,
    to: int,
    entry: (Entity, AABB2),
)
    ensures
        routed(log, bbox, depth, to).contains(entry) <==> log.contains(entry) && quarter_for(
            bbox,
            depth,
            entry.1,
        ) == to,
    decreases log.len(),
{
    lemma_routed(log, bbox, depth, to);
    let r = routed(log, bbox, depth, to);
    if r.contains(entry) {
        let j = choose|j: int| 0 <= j < r.len() && r[j] == entry;
        assert(log.contains(r[j]));
    }
    if log.len() > 0 {
        let init = log.drop_last();
        lemma_routed_contains(init, bbox, depth, to, entry);
        let r0 = routed(init, bbox, depth, to);
        if log.contains(entry) && quarter_for(bbox, depth, entry.1) == to {
            let w = choose|w: int| 0 <= w < log.len() && log[w] == entry;
            if w < init.len() {
                assert(init[w] == entry);
                assert(init.contains(entry));
                let j = choose|j: int| 0 <= j < r0.len() && r0[j] == entry;
                assert(r[j] == entry);
            } else {
                assert(log.last() == entry);
                assert(r[r0.len() as int] == entry);
            }
        }
    }
}

/// An index holds the entries of its log, each of them and no other.
pub proof fn lemma_arranged_contains(
    log: Seq<(Entity, AABB2)>,
    bbox: AABB2,
    depth: int,
    entry: (Entity, AABB2),
)
    requires
        0 <= depth,
    ensures
        arranged(log, bbox, depth).contains(entry) <==> log.contains(entry),
    decreases MAX_DEPTH - depth,
{
    if can_quarter(bbox, depth) {
        let own = routed(log, bbox, depth, 4);
        let l0 = routed(log, bbox, depth, 0);
        let l1 = routed(log, bbox, depth, 1);
        let l2 = routed(log, bbox, depth, 2);
        let l3 = routed(log, bbox, depth, 3);
        let a0 = arranged(l0, quarter(bbox, 0), depth + 1);
        let a1 = arranged(l1, quarter(bbox, 1), depth + 1);
        let a2 = arranged(l2, quarter(bbox, 2), depth + 1);
        let a3 = arranged(l3, quarter(bbox, 3), depth + 1);
        let all = own + a0 + a1 + a2 + a3;
        lemma_routed_contains(log, bbox, depth, 4, entry);
        lemma_routed_contains(log, bbox, depth, 0, entry);
        lemma_routed_contains(log, bbox, depth, 1, entry);
        lemma_routed_contains(log, bbox, depth, 2, entry);
        lemma_routed_contains(log, bbox, depth, 3, entry);
        lemma_arranged_contains(l0, quarter(bbox, 0), depth + 1, entry);
        lemma_arranged_contains(l1, quarter(bbox, 1), depth + 1, entry);
        lemma_arranged_contains(l2, quarter(bbox, 2), depth + 1, entry);
        lemma_arranged_contains(l3, quarter(bbox, 3), depth + 1, entry);
        if all.contains(entry) {
            let w = choose|w: int| 0 <= w < all.len() && all[w] == entry;
            if w < own.len() {
                assert(own[w] == entry);
            } else if w < own.len() + a0.len() {
                assert(a0[w - own.len()] == entry);
            } else if w < own.len() + a0.len() + a1.len() {
                assert(a1[w - own.len() - a0.len()] == entry);
            } else if w < own.len() + a0.len() + a1.len() + a2.len() {
                assert(a2[w - own.len() - a0.len() - a1.len()] == entry);
            } else {
                assert(a3[w - own.len() - a0.len() - a1.len() - a2.len()] == entry);
            }
        }
        if log.contains(entry) {
            let k = quarter_for(bbox, depth, entry.1);
            if k == 4 {
                let j = choose|j: int| 0 <= j < own.len() && own[j] == entry;
                assert(all[j] == entry);
            } else if k == 0 {
                let j = choose|j: int| 0 <= j < a0.len() && a0[j] == entry;
                assert(all[own.len() + j] == entry);
            } else if k == 1 {
                let j = choose|j: int| 0 <= j < a1.len() && a1[j] == entry;
                assert(all[own.len() + a0.len() + j] == entry);
            } else if k == 2 {
                let j = choose|j: int| 0 <= j < a2.len() && a2[j] == entry;
                assert(all[own.len() + a0.len() + a1.len() + j] == entry);
            } else {
                let j = choose|j: int| 0 <= j < a3.len() && a3[j] == entry;
                assert(all[own.len() + a0.len() + a1.len() + a2.len() + j] == entry);
            }
        }
    }
}

/// A search of an index finds an entity exactly when the entity was put in
/// with a rectangle that overlaps the region searched.
pub proof fn lemma_query_finds(
    log: Seq<(Entity, AABB2)>,
    bbox: AABB2,
    region: AABB2,
    e: Entity,
)
    ensures
        overlapping(arranged(log, bbox, 0), region).contains(e) <==> exists|i: int|
            0 <= i < log.len() && (#[trigger] log[i]).0 == e && log[i].1.spec_overlaps(region),
{
    let order = arranged(log, bbox, 0);
    lemma_overlapping_contains(order, region, e);
    if overlapping(order, region).contains(e) {
        let i = choose|i: int|
            0 <= i < order.len() && (#[trigger] order[i]).0 == e && order[i].1.spec_overlaps(
                region,
            );
        lemma_arranged_contains(log, bbox, 0, order[i]);
        assert(order.contains(order[i]));
        let w = choose|w: int| 0 <= w < log.len() && log[w] == order[i];
        assert(log[w].0 == e);
    }
    if exists|i: int|
        0 <= i < log.len() && (#[trigger] log[i]).0 == e && log[i].1.spec_overlaps(region) {
        let i = choose|i: int|
            0 <= i < log.len() && (#[trigger] log[i]).0 == e && log[i].1.spec_overlaps(region);
        lemma_arranged_contains(log, bbox, 0, log[i]);
        assert(log.contains(log[i]));
        let w = choose|w: int| 0 <= w < order.len() && order[w] == log[i];
        assert(order[w].0 == e);
    }
}

} // verus!
