use doom_core::fixed::ONE;
use doom_core::geometry::{Interval, AABB2};
use doom_core::quadtree::Quadtree;
use doom_core::world::Entity;

/// What the index finds in the region, in the order of the entities' numbers.
fn found(q: &Quadtree, region: &AABB2) -> Vec<usize> {
    let mut ids: Vec<usize> = q.query(region).iter().map(|e| e.id).collect();
    ids.sort();
    ids
}

fn rect(x0: i64, x1: i64, y0: i64, y1: i64) -> AABB2 {
    AABB2 { x: Interval::new(x0 * ONE, x1 * ONE), y: Interval::new(y0 * ONE, y1 * ONE) }
}

#[test]
fn a_new_index_is_empty_and_keeps_its_extent() {
    let q = Quadtree::new(rect(0, 100, 0, 100));
    assert_eq!(q.len(), 0);
    assert_eq!(q.bbox(), rect(0, 100, 0, 100));
    assert_eq!(found(&q, &rect(0, 100, 0, 100)), Vec::<usize>::new());
}

#[test]
fn query_finds_what_overlaps_the_region() {
    let mut q = Quadtree::new(rect(0, 100, 0, 100));
    q.insert(Entity { id: 0 }, &rect(10, 20, 10, 20));
    q.insert(Entity { id: 1 }, &rect(60, 70, 60, 70));
    q.insert(Entity { id: 2 }, &rect(15, 65, 15, 65));
    assert_eq!(q.len(), 3);
    assert_eq!(found(&q, &rect(0, 12, 0, 12)), vec![0]);
    assert_eq!(found(&q, &rect(62, 63, 62, 63)), vec![1, 2]);
    assert_eq!(found(&q, &rect(30, 40, 30, 40)), vec![2]);
    assert_eq!(found(&q, &rect(80, 90, 0, 10)), Vec::<usize>::new());
    assert_eq!(q.bbox(), rect(0, 100, 0, 100));
}

#[test]
fn touching_rectangles_overlap() {
    let mut q = Quadtree::new(rect(0, 100, 0, 100));
    q.insert(Entity { id: 4 }, &rect(10, 20, 10, 20));
    assert_eq!(found(&q, &rect(20, 30, 20, 30)), vec![4]);
    let just_off = AABB2 {
        x: Interval::new(20 * ONE + 1, 30 * ONE),
        y: Interval::new(20 * ONE, 30 * ONE),
    };
    assert_eq!(found(&q, &just_off), Vec::<usize>::new());
}

#[test]
fn an_entity_outside_the_extent_is_still_found() {
    let mut q = Quadtree::new(rect(0, 10, 0, 10));
    q.insert(Entity { id: 9 }, &rect(50, 60, 50, 60));
    assert_eq!(found(&q, &rect(55, 56, 55, 56)), vec![9]);
}

#[test]
fn an_entity_entered_twice_is_found_twice() {
    let mut q = Quadtree::new(rect(0, 10, 0, 10));
    q.insert(Entity { id: 1 }, &rect(1, 2, 1, 2));
    q.insert(Entity { id: 1 }, &rect(1, 3, 1, 3));
    assert_eq!(found(&q, &rect(0, 10, 0, 10)), vec![1, 1]);
}

#[test]
fn many_entities_are_found_wherever_they_are_stored() {
    let mut q = Quadtree::new(rect(0, 1024, 0, 1024));
    let mut boxes = Vec::new();
    // Rectangles of many sizes, some across the middle lines, some tiny.
    let mut seed: i64 = 12345;
    for id in 0..300 {
        seed = (seed * 1103515245 + 12345) % 2147483648;
        let x = seed % 1000;
        seed = (seed * 1103515245 + 12345) % 2147483648;
        let y = seed % 1000;
        seed = (seed * 1103515245 + 12345) % 2147483648;
        let w = 1 + seed % [3, 40, 600][id % 3];
        let b = rect(x, x + w, y, y + w / 2);
        q.insert(Entity { id }, &b);
        boxes.push(b);
    }
    assert_eq!(q.len(), 300);
    for region in [
        rect(0, 1024, 0, 1024),
        rect(500, 524, 500, 524),
        rect(0, 1, 0, 1),
        rect(511, 513, 0, 1024),
        rect(900, 2000, 900, 2000),
        rect(-50, -1, 0, 10),
        rect(250, 260, 700, 760),
    ] {
        let expected: Vec<usize> =
            (0..300).filter(|i| boxes[*i].overlaps(&region)).collect();
        assert_eq!(found(&q, &region), expected, "{:?}", region);
    }
}

#[test]
fn an_index_for_an_empty_rectangle_still_works() {
    let mut q = Quadtree::new(AABB2::empty());
    q.insert(Entity { id: 1 }, &rect(1, 2, 1, 2));
    q.insert(Entity { id: 2 }, &AABB2::empty());
    assert_eq!(found(&q, &rect(0, 3, 0, 3)), vec![1]);
    assert_eq!(q.len(), 2);
}

#[test]
fn what_stays_at_a_rectangle_comes_before_what_goes_to_its_quarters() {
    let mut q = Quadtree::new(rect(0, 100, 0, 100));
    // In the quarter of greater x and y.
    q.insert(Entity { id: 0 }, &rect(60, 70, 60, 70));
    // In the quarter of lesser x and y.
    q.insert(Entity { id: 1 }, &rect(10, 20, 10, 20));
    // Across the middle: it stays at the whole rectangle.
    q.insert(Entity { id: 2 }, &rect(15, 65, 15, 65));
    // In the quarter of greater x and lesser y.
    q.insert(Entity { id: 3 }, &rect(80, 90, 5, 6));
    // In the quarter of lesser x and y again, but across its own middle.
    q.insert(Entity { id: 4 }, &rect(20, 30, 20, 30));
    let all: Vec<usize> = q.query(&rect(0, 100, 0, 100)).iter().map(|e| e.id).collect();
    assert_eq!(all, vec![2, 4, 1, 3, 0]);
    let some: Vec<usize> = q.query(&rect(0, 100, 0, 12)).iter().map(|e| e.id).collect();
    assert_eq!(some, vec![1, 3]);
}

#[test]
fn a_rectangle_on_a_middle_line_goes_to_the_first_quarter_that_holds_it() {
    let mut q = Quadtree::new(rect(0, 100, 0, 100));
    // The point (50, 50) lies in all four quarters.
    q.insert(Entity { id: 7 }, &rect(50, 50, 50, 50));
    q.insert(Entity { id: 8 }, &rect(75, 75, 75, 75));
    q.insert(Entity { id: 9 }, &rect(25, 25, 25, 25));
    let all: Vec<usize> = q.query(&rect(0, 100, 0, 100)).iter().map(|e| e.id).collect();
    assert_eq!(all, vec![9, 7, 8]);
}
