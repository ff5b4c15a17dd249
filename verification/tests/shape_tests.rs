use pathfinder::coordinate::Coordinate;
use pathfinder::shape::{Circle, Shape, Square};

fn rim_by_root(size: u32) -> Vec<Coordinate> {
    let mut pts = Vec::new();
    let r2 = (size * size) as i16;
    let size = size as i16;
    let h = size / 2;
    for x in 0..size + 1 {
        let f = (r2 - x * x) as f64;
        let y = (f.sqrt() + 0.1) as i16;
        pts.push(Coordinate::new(h + x, h + y));
        pts.push(Coordinate::new(h + x, h - y));
        pts.push(Coordinate::new(h - x, h + y));
        pts.push(Coordinate::new(h - x, h - y));
    }
    pts
}

#[test]
fn square_covers_size_squared_pixels() {
    for n in 0u32..30 {
        let pts = Square::new().area(n);
        assert_eq!(pts.len() as u32, n * n);
        for p in pts.iter() {
            assert!(p.x >= 0 && (p.x as u32) < n);
            assert!(p.y >= 0 && (p.y as u32) < n);
        }
    }
}

#[test]
fn square_lists_its_pixels_column_by_column() {
    let pts = Square::new().area(2);
    assert_eq!(
        pts,
        vec![
            Coordinate::new(0, 0),
            Coordinate::new(0, 1),
            Coordinate::new(1, 0),
            Coordinate::new(1, 1)
        ]
    );
    let pts = Square::new().area(3);
    assert_eq!(pts[5], Coordinate::new(1, 2));
    assert_eq!(pts[6], Coordinate::new(2, 0));
}

#[test]
fn a_shape_of_size_zero_is_empty() {
    assert_eq!(Square::new().area(0), Vec::<Coordinate>::new());
    assert_eq!(Circle::new().area(0), Vec::<Coordinate>::new());
    assert!(Circle::new().area(0).is_empty());
}

#[test]
fn circle_of_size_one() {
    let pts = Circle::new().area(1);
    let mut expected = vec![Coordinate::new(0, 0); 4];
    expected.push(Coordinate::new(0, 1));
    expected.push(Coordinate::new(0, -1));
    expected.push(Coordinate::new(0, 1));
    expected.push(Coordinate::new(0, -1));
    expected.push(Coordinate::new(1, 0));
    expected.push(Coordinate::new(1, 0));
    expected.push(Coordinate::new(-1, 0));
    expected.push(Coordinate::new(-1, 0));
    assert_eq!(pts, expected);
}

#[test]
fn circle_rims_follow_the_biased_root() {
    for size in 1u32..=181 {
        let pts = Circle::new().area(size);
        let mut expected = Vec::new();
        for i in 0..size + 1 {
            expected.append(&mut rim_by_root(i));
        }
        assert_eq!(pts, expected);
    }
}

#[test]
fn square_of_a_larger_size_stays_in_its_bounds() {
    let n = 300u32;
    let pts = Square::new().area(n);
    assert_eq!(pts.len() as u32, n * n);
    assert_eq!(pts[0], Coordinate::new(0, 0));
    assert_eq!(pts[299], Coordinate::new(0, 299));
    assert_eq!(pts[300], Coordinate::new(1, 0));
    assert_eq!(pts[pts.len() - 1], Coordinate::new(299, 299));
}

#[test]
fn circle_repeats_pixels() {
    let pts = Circle::new().area(4);
    assert_eq!(pts.len(), 4 * (1 + 2 + 3 + 4 + 5));
    let first = pts[0];
    assert!(pts.iter().filter(|p| **p == first).count() > 1);
}
