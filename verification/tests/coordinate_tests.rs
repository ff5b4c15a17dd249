use pathfinder::coordinate::{diff, gen_radius, gen_within_radius, Coordinate, Coordinates};
use std::cmp::Ordering;

#[test]
fn coordinate_holds_what_it_was_given() {
    let c = Coordinate::new(-3, 7);
    assert_eq!(c.x, -3);
    assert_eq!(c.y, 7);
    assert_eq!(c, Coordinate { x: -3, y: 7 });
    assert_ne!(c, Coordinate { x: 7, y: -3 });
}

#[test]
fn diff_is_the_distance_along_each_axis() {
    let a = Coordinate::new(10, -5);
    let b = Coordinate::new(-20, 40);
    assert_eq!(diff(&a, &b), (30, 45));
    assert_eq!(diff(&b, &a), (30, 45));
    assert_eq!(a.diff(&b), (30, 45));
    assert_eq!(a.diff(&a), (0, 0));
    let far = Coordinate::new(i16::MAX, 0);
    assert_eq!(far.diff(&Coordinate::new(0, 0)), (i16::MAX, 0));
}

#[test]
fn coordinates_are_ordered_by_the_sum_of_their_axes() {
    let a = Coordinate::new(1, 2);
    let b = Coordinate::new(2, 1);
    let c = Coordinate::new(0, 0);
    assert_eq!(a.partial_cmp(&b), Some(Ordering::Equal));
    assert_eq!(c.partial_cmp(&a), Some(Ordering::Less));
    assert_eq!(a.partial_cmp(&c), Some(Ordering::Greater));
    assert!(c < a);
    assert!(a > c);
    let top = Coordinate::new(i16::MAX, i16::MAX);
    let bottom = Coordinate::new(i16::MIN, i16::MIN);
    assert!(bottom < top);
    assert_eq!(top.sum(), 65534);
    assert_eq!(bottom.sum(), -65536);
}

#[test]
fn positions_are_ordered_by_x() {
    let a = Coordinates::new(1, 50);
    let b = Coordinates::new(2, -50);
    assert_eq!(a.x, 1);
    assert_eq!(a.y, 50);
    assert!(a < b);
    assert_eq!(a.partial_cmp(&Coordinates::new(1, 0)), Some(Ordering::Equal));
    assert_eq!(b.partial_cmp(&a), Some(Ordering::Greater));
}

#[test]
fn radius_draws_lie_between_the_bounds() {
    let center = Coordinate::new(12, -4);
    for _ in 0..2000 {
        let d = gen_radius(&center, 5, 17);
        assert_eq!(d.center, center);
        assert!(d.radius >= 5 && d.radius < 17);
        assert!(d.drop >= 5 && d.drop < 17);
        assert!(d.angle < 360);
    }
}

#[test]
fn radius_draws_within_a_radius_start_at_zero() {
    let center = Coordinate::new(0, 0);
    for _ in 0..2000 {
        let d = gen_within_radius(&center, 3);
        assert_eq!(d.center, center);
        assert!(d.radius < 3);
        assert!(d.drop < 3);
        assert!(d.angle < 360);
    }
    let d = gen_within_radius(&center, 1);
    assert_eq!(d.radius, 0);
    assert_eq!(d.drop, 0);
}

#[test]
fn the_two_distances_are_drawn_apart() {
    let center = Coordinate::new(0, 0);
    let mut differ = false;
    for _ in 0..200 {
        let d = gen_radius(&center, 0, 1000);
        if d.radius != d.drop {
            differ = true;
        }
    }
    assert!(differ);
}

#[test]
fn older_draws_lie_in_the_outer_half() {
    let at = Coordinates::new(9, 9);
    for _ in 0..2000 {
        let d = Coordinates::gen_within_radius(at, 40);
        assert_eq!(d.center, Coordinate::new(9, 9));
        assert!(d.radius >= 20 && d.radius < 40);
        assert!(d.angle < 180 && d.angle % 18 == 0);
        assert!(d.drop < 12);
    }
    let d = Coordinates::gen_within_radius(at, 4);
    assert!(d.radius >= 2 && d.radius < 4);
    assert!(d.drop < 3);
}

#[test]
fn lowering_moves_a_point_along_y_only() {
    assert_eq!(Coordinate::lowered(5, 9, 4), Coordinate::new(5, 5));
    assert_eq!(Coordinate::lowered(-5, 0, 0), Coordinate::new(-5, 0));
    assert_eq!(Coordinate::lowered(0, i16::MAX, 65535), Coordinate::new(0, -32768));
}

#[test]
fn a_draw_settles_on_the_lowered_point() {
    let center = Coordinate::new(0, 0);
    let mut d = gen_radius(&center, 4, 5);
    assert_eq!(d.radius, 4);
    assert_eq!(d.drop, 4);
    assert_eq!(d.settle(3, 2), Some(Coordinate::new(3, -2)));
    assert_eq!(d.settle(-3, i16::MIN + 4), Some(Coordinate::new(-3, i16::MIN)));
    assert_eq!(d.settle(-3, i16::MIN + 3), None);
    d.drop = 70000;
    assert_eq!(d.settle(0, i16::MAX), None);
}

#[test]
fn random_coordinates_can_be_made() {
    let mut differ = false;
    let first = Coordinate::gen();
    for _ in 0..100 {
        if Coordinate::gen() != first {
            differ = true;
        }
    }
    assert!(differ);
    let p = Coordinates::gen();
    assert_eq!(p, Coordinates::new(p.x, p.y));
}
