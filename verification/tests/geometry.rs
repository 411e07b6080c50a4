use doom_core::fixed::{clamp_coord, div_floor, div_round_away, mul_wide, LIMIT, ONE};
use doom_core::geometry::{
    fixed_ratio, sat_add, scale_coord, Interval, Line2, Plane2, Side, Vec2, Vec3, AABB2, AABB3,
};

#[test]
fn div_floor_rounds_toward_negative_infinity() {
    assert_eq!(div_floor(7, 2), 3);
    assert_eq!(div_floor(-7, 2), -4);
    assert_eq!(div_floor(-8, 2), -4);
    assert_eq!(div_floor(0, 5), 0);
    assert_eq!(div_floor(-1, 1_000_000_000), -1);
}

#[test]
fn div_round_away_rounds_away_from_zero() {
    assert_eq!(div_round_away(7, 2), 4);
    assert_eq!(div_round_away(-7, 2), -4);
    assert_eq!(div_round_away(8, 2), 4);
    assert_eq!(div_round_away(-8, 2), -4);
    assert_eq!(div_round_away(0, 3), 0);
}

#[test]
fn mul_wide_is_exact_at_the_extremes() {
    assert_eq!(mul_wide(i64::MIN, i64::MIN), 1i128 << 126);
    assert_eq!(mul_wide(i64::MAX, -1), -(i64::MAX as i128));
}

#[test]
fn clamp_coord_stops_at_the_limit() {
    assert_eq!(clamp_coord(LIMIT as i128 + 1), LIMIT);
    assert_eq!(clamp_coord(-(LIMIT as i128) - 1), -LIMIT);
    assert_eq!(clamp_coord(12345), 12345);
    assert_eq!(sat_add(LIMIT, 1), LIMIT);
    assert_eq!(sat_add(-LIMIT, -1), -LIMIT);
    assert_eq!(sat_add(3 * ONE, -5 * ONE), -2 * ONE);
}

#[test]
fn interval_overlap_counts_touching_ends() {
    let a = Interval::new(0, ONE);
    let b = Interval::new(ONE, 2 * ONE);
    assert!(a.overlaps(b));
    assert!(!a.overlaps(Interval::new(ONE + 1, 2 * ONE)));
}

#[test]
fn interval_intersection_union_and_inside() {
    let a = Interval::new(0, 10);
    let b = Interval::new(5, 20);
    assert_eq!(a.intersection(b), Interval::new(5, 10));
    assert_eq!(a.union(b), Interval::new(0, 20));
    assert!(Interval::new(5, 10).is_inside(a));
    assert!(!b.is_inside(a));
    assert!(Interval::new(3, 2).is_empty());
    assert!(!Interval::new(2, 2).is_empty());
    assert!(a.intersection(Interval::new(11, 12)).is_empty());
}

#[test]
fn box_corners_are_listed_from_the_least() {
    let b = AABB2 { x: Interval::new(1, 2), y: Interval::new(3, 4) };
    let c = b.corners();
    assert_eq!(c[0], Vec2::new(1, 3));
    assert_eq!(c[1], Vec2::new(1, 4));
    assert_eq!(c[2], Vec2::new(2, 4));
    assert_eq!(c[3], Vec2::new(2, 3));
}

#[test]
fn empty_box_is_the_unit_of_add_point() {
    let mut b = AABB2::empty();
    b.add_point(Vec2::new(5, -7));
    assert_eq!(b, AABB2 { x: Interval::new(5, 5), y: Interval::new(-7, -7) });
    b.add_point(Vec2::new(-1, 9));
    assert_eq!(b, AABB2 { x: Interval::new(-1, 5), y: Interval::new(-7, 9) });
}

#[test]
fn collider_box_stands_on_its_position() {
    let b = AABB3::from_radius_height(16 * ONE, 56 * ONE);
    assert_eq!(b.x, Interval::new(-16 * ONE, 16 * ONE));
    assert_eq!(b.y, Interval::new(-16 * ONE, 16 * ONE));
    assert_eq!(b.z, Interval::new(0, 56 * ONE));
    let moved = b.offset(Vec3::new(100 * ONE, 200 * ONE, 8 * ONE));
    assert_eq!(moved.x, Interval::new(84 * ONE, 116 * ONE));
    assert_eq!(moved.y, Interval::new(184 * ONE, 216 * ONE));
    assert_eq!(moved.z, Interval::new(8 * ONE, 64 * ONE));
    assert_eq!(moved.to_plan(), AABB2 { x: moved.x, y: moved.y });
}

#[test]
fn dot_and_cross_are_exact() {
    let a = Vec2::new(3, 4);
    let b = Vec2::new(-2, 5);
    assert_eq!(a.dot(b), 14);
    assert_eq!(a.cross(b), 23);
    assert_eq!(Vec3::new(1, 2, 3).dot(Vec3::new(4, -5, 6)), 12);
}

#[test]
fn fixed_ratio_is_a_floored_fixed_point_quotient() {
    assert_eq!(fixed_ratio(1, 2), (ONE / 2) as i128);
    assert_eq!(fixed_ratio(-1, 2), -((ONE / 2) as i128));
    assert_eq!(fixed_ratio(1, -2), -((ONE / 2) as i128));
    assert_eq!(fixed_ratio(1, 3), 21845);
    assert_eq!(fixed_ratio(-1, 3), -21846);
    assert_eq!(fixed_ratio(1, -3), -21846);
}

#[test]
fn scale_coord_takes_a_fraction_of_a_step() {
    assert_eq!(scale_coord(10 * ONE, ONE / 2), 5 * ONE);
    assert_eq!(scale_coord(-10 * ONE, ONE / 4), -5 * ONE / 2);
    assert_eq!(scale_coord(7, 0), 0);
    assert_eq!(scale_coord(7, ONE), 7);
    assert_eq!(scale_coord(-3, ONE / 2), -2);
}

#[test]
fn crossing_lines_meet_where_expected() {
    // A horizontal mover from (0, 1) along (4, 0) meets a vertical wall
    // from (2, 0) along (0, 4) halfway along its step and a quarter up the
    // wall.
    let mover = Line2::new(Vec2::new(0, ONE), Vec2::new(4 * ONE, 0));
    let wall = Line2::new(Vec2::new(2 * ONE, 0), Vec2::new(0, 4 * ONE));
    assert_eq!(mover.intersect(&wall), Some(((ONE / 2) as i128, (ONE / 4) as i128)));
}

#[test]
fn parallel_lines_do_not_meet() {
    let a = Line2::new(Vec2::new(0, 0), Vec2::new(ONE, ONE));
    let b = Line2::new(Vec2::new(0, ONE), Vec2::new(2 * ONE, 2 * ONE));
    assert_eq!(a.intersect(&b), None);
    let still = Line2::new(Vec2::new(0, 0), Vec2::new(0, 0));
    assert_eq!(still.intersect(&a), None);
}

#[test]
fn signed_distance_tells_front_from_back() {
    // The line x = 2, facing +x.
    let plane = Plane2 { normal: Vec2::new(ONE, 0), distance: 2 * ONE };
    assert_eq!(plane.signed_distance(Vec2::new(3 * ONE, 0)), (ONE as i128) * (ONE as i128));
    assert_eq!(plane.signed_distance(Vec2::new(2 * ONE, 77)), 0);
    assert!(plane.signed_distance(Vec2::new(ONE, 0)) < 0);
}

#[test]
fn right_is_the_first_side() {
    assert_eq!(Side::Right.index(), 0);
    assert_eq!(Side::Left.index(), 1);
}
