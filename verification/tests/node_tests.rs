use pathfinder::coordinate::Coordinate;
use pathfinder::group::Group;
use pathfinder::node::{calculate_hash, Node};
use pathfinder::shape::{Circle, Square};
use pathfinder::surface::{Color, Surface};
use std::collections::hash_map::DefaultHasher;
use std::hash::{Hash, Hasher};

const CLEAR: Color = Color { r: 0, g: 0, b: 0, a: 0 };
const BLACK: Color = Color { r: 0, g: 0, b: 0, a: 255 };

#[test]
fn a_new_node_is_black_without_a_radius() {
    let node: Node<Square> = Node::new("A", Coordinate::new(3, 4));
    assert_eq!(node.geo, Coordinate::new(3, 4));
    assert_eq!(node.color, BLACK);
    assert_eq!(node.radius, None);
    assert_eq!(node.hash, calculate_hash("A"));
}

#[test]
fn identity_depends_on_the_name_alone() {
    let a: Node<Square> = Node::new("A", Coordinate::new(3, 4));
    let b: Node<Circle> = Node::new("A", Coordinate::new(-3, 0));
    let c: Node<Square> = Node::new("B", Coordinate::new(3, 4));
    assert_eq!(a.hash, b.hash);
    assert_ne!(a.hash, c.hash);
    assert_ne!(calculate_hash(""), calculate_hash("A"));
}

#[test]
fn identity_is_the_default_hash_of_the_name() {
    for name in ["", "A", "node", "a longer name, with a comma"] {
        let mut state = DefaultHasher::new();
        name.hash(&mut state);
        assert_eq!(calculate_hash(name), state.finish());
    }
}

#[test]
fn identity_text_is_the_hash_in_decimal() {
    for name in ["", "A", "B", "node"] {
        let node: Node<Square> = Node::new(name, Coordinate::new(0, 0));
        assert_eq!(node.gen_id(), node.hash.to_string().into_bytes());
    }
    let mut node: Node<Square> = Node::new("", Coordinate::new(0, 0));
    node.hash = 0;
    assert_eq!(node.gen_id(), vec![48u8]);
    node.hash = 10;
    assert_eq!(node.gen_id(), vec![49u8, 48u8]);
    node.hash = u64::MAX;
    assert_eq!(node.gen_id(), u64::MAX.to_string().into_bytes());
}

#[test]
fn a_surface_starts_transparent() {
    let image = Surface::new(4, 3);
    assert_eq!(image.width(), 4);
    assert_eq!(image.height(), 3);
    for x in 0..4 {
        for y in 0..3 {
            assert_eq!(image.get_pixel(x, y), CLEAR);
        }
    }
}

#[test]
fn a_pixel_that_was_put_is_read_back() {
    let mut image = Surface::new(4, 3);
    let c = Color { r: 1, g: 2, b: 3, a: 4 };
    image.put_pixel(3, 1, c);
    assert_eq!(image.width(), 4);
    assert_eq!(image.height(), 3);
    for x in 0..4 {
        for y in 0..3 {
            if x == 3 && y == 1 {
                assert_eq!(image.get_pixel(x, y), c);
            } else {
                assert_eq!(image.get_pixel(x, y), CLEAR);
            }
        }
    }
}

#[test]
fn a_square_node_is_drawn_black_at_its_position() {
    let mut image = Surface::new(8, 8);
    let mut node: Node<Square> = Node::new("A", Coordinate::new(1, 2));
    node.color = Color { r: 200, g: 10, b: 10, a: 255 };
    node.draw(&mut image, 2, 1, 2);
    for x in 0..8 {
        for y in 0..8 {
            let inside = (3..5).contains(&x) && (3..5).contains(&y);
            assert_eq!(image.get_pixel(x, y), if inside { BLACK } else { CLEAR });
        }
    }
}

#[test]
fn a_node_is_drawn_at_its_own_radius() {
    let mut image = Surface::new(8, 8);
    let mut node: Node<Square> = Node::new("A", Coordinate::new(-1, -1));
    node.radius = Some(3);
    node.draw(&mut image, 1, 1, 7);
    for x in 0..8 {
        for y in 0..8 {
            let inside = x < 3 && y < 3;
            assert_eq!(image.get_pixel(x, y), if inside { BLACK } else { CLEAR });
        }
    }
    let mut untouched = Surface::new(2, 2);
    node.radius = Some(0);
    node.draw(&mut untouched, 1, 1, 7);
    assert_eq!(untouched.get_pixel(0, 0), CLEAR);
}

#[test]
fn a_circle_node_is_drawn_round_its_middle() {
    let mut image = Surface::new(9, 9);
    let node: Node<Circle> = Node::new("A", Coordinate::new(4, 4));
    node.draw(&mut image, 0, 0, 1);
    let marked = [(4u32, 4u32), (4, 5), (4, 3), (5, 4), (3, 4)];
    for x in 0..9 {
        for y in 0..9 {
            let inside = marked.contains(&(x, y));
            assert_eq!(image.get_pixel(x, y), if inside { BLACK } else { CLEAR });
        }
    }
}

#[test]
fn a_group_draws_each_of_its_nodes() {
    let mut image = Surface::new(10, 10);
    let mut group: Group<Square> = Group::new("", Coordinate::new(0, 0));
    group.draw(&mut image, 0, 0, 2);
    for x in 0..10 {
        for y in 0..10 {
            assert_eq!(image.get_pixel(x, y), CLEAR);
        }
    }
    group.push(Node::new("a", Coordinate::new(0, 0)));
    group.push(Node::new("b", Coordinate::new(5, 6)));
    group.draw(&mut image, 1, 0, 2);
    for x in 0..10 {
        for y in 0..10 {
            let first = (1..3).contains(&x) && (0..2).contains(&y);
            let second = (6..8).contains(&x) && (6..8).contains(&y);
            assert_eq!(image.get_pixel(x, y), if first || second { BLACK } else { CLEAR });
        }
    }
}
