use pathfinder::coordinate::{Coordinate, RadialDraw};
use pathfinder::group::{add_node, add_node_inner, count, get_parameters, min_max, Group};
use pathfinder::node::{calculate_hash, Node};
use pathfinder::shape::Square;
use pathfinder::surface::Color;

fn groups_at(list: &[(i16, i16)]) -> Vec<Group<Square>> {
    let mut groups = Vec::new();
    for c in list.iter() {
        groups.push(Group::new("", Coordinate::new(c.0, c.1)));
    }
    groups
}

fn nodes_at(list: &[(i16, i16)]) -> Vec<Node<Square>> {
    let mut nodes = Vec::new();
    for c in list.iter() {
        nodes.push(Node::new("", Coordinate::new(c.0, c.1)));
    }
    nodes
}

fn resolve(d: &RadialDraw) -> Coordinate {
    let r = d.radius as f64;
    let a = (d.angle as f64).to_radians();
    let x = (d.center.x as f64 + r * a.cos()) as i16;
    let y = (d.center.y as f64 + r * a.sin()) as i16;
    assert!(y as i64 - d.drop as i64 >= i16::MIN as i64);
    Coordinate::lowered(x, y, d.drop)
}

fn shade_by_scale(group: &Group<Square>, at: Coordinate) -> [i32; 4] {
    let radius = group.get_dynamic_radius();
    let (x_dif, y_dif) = group.settings.geo.diff(&at);
    let x_scale: f64 = x_dif as f64 / radius as f64;
    let y_scale: f64 = y_dif as f64 / radius as f64;
    let c = group.settings.color;
    let max_multi: f64 = ((c.r as i32 + c.g as i32 + c.b as i32) / 3) as f64;
    let modify = (-max_multi * (x_scale + y_scale) / 2.0) as i32;
    let clamp = |v: i64| if v > 255 { 255 } else if v < 0 { 0 } else { v as i32 };
    [
        clamp(c.r as i64 + modify as i64),
        clamp(c.g as i64 + modify as i64),
        clamp(c.b as i64 + modify as i64),
        c.a as i32,
    ]
}

#[test]
fn test_count_none() {
    let groups = groups_at(&[(0, 0), (100, 100)]);
    assert_eq!(count(&groups), 0);
}

#[test]
fn test_count_some() {
    let mut groups = groups_at(&[(0, 0), (100, 100)]);
    groups[0].nodes = nodes_at(&[(0, 0), (0, 0)]);
    assert_eq!(count(&groups), 2);
}

#[test]
fn test_add_node() {
    let mut group: Group<Square> = Group::new("", Coordinate::new(0, 0));
    let d = add_node(&group, None, None);
    add_node_inner(&mut group, None, resolve(&d));
    let d = add_node(&group, Some(50), Some(20));
    add_node_inner(&mut group, Some("name"), resolve(&d));
    assert_eq!(group.nodes.len(), 2);
}

#[test]
fn add_node_draws_between_the_bounds_in_either_order() {
    let mut group: Group<Square> = Group::new("g", Coordinate::new(7, 8));
    for _ in 0..300 {
        let d = add_node(&group, Some(50), Some(20));
        assert_eq!(d.center, Coordinate::new(7, 8));
        assert!(d.radius >= 20 && d.radius < 50);
        assert!(d.drop >= 20 && d.drop < 50);
        let d = add_node(&group, None, None);
        assert!(d.radius < 10 && d.drop < 10);
        let d = add_node(&group, Some(3), None);
        assert!(d.radius >= 3 && d.radius < 10);
        let d = add_node(&group, None, Some(2));
        assert!(d.radius < 2);
    }
    group.settings.radius = Some(4);
    group.settings.color = Color { r: 90, g: 120, b: 150, a: 200 };
    add_node_inner(&mut group, Some("name"), Coordinate::new(8, 9));
    add_node_inner(&mut group, None, Coordinate::new(7, 8));
    assert_eq!(group.nodes[0].hash, calculate_hash("name"));
    assert_eq!(group.nodes[0].geo, Coordinate::new(8, 9));
    assert_eq!(group.nodes[0].radius, Some(4));
    assert_eq!(group.nodes[0].color, Color { r: 60, g: 90, b: 120, a: 200 });
    assert_eq!(group.nodes[1].hash, calculate_hash(""));
    assert_eq!(group.nodes[1].color, Color { r: 90, g: 120, b: 150, a: 200 });
}

#[test]
fn count_sums_the_members_of_every_group() {
    let mut groups = groups_at(&[(0, 0), (100, 100), (5, 5)]);
    groups[0].nodes = nodes_at(&[(0, 0), (0, 0)]);
    groups[2].nodes = nodes_at(&[(1, 1), (2, 2), (3, 3)]);
    assert_eq!(count(&groups), 5);
    let none: Vec<Group<Square>> = Vec::new();
    assert_eq!(count(&none), 0);
}

#[test]
fn bounding_box_of_two_nodes() {
    let mut group: Group<Square> = Group::new("", Coordinate::new(0, 0));
    group.push(Node::new("", Coordinate::new(0, 0)));
    group.push(Node::new("", Coordinate::new(100, 100)));
    let (min, max) = get_parameters(&group);
    assert_eq!(min, Coordinate::new(0, 0));
    assert_eq!(max, Coordinate::new(100, 100));
    let list = vec![group];
    assert_eq!(min_max(&list), ((0, 100), (0, 100)));
}

#[test]
fn bounding_box_counts_the_origin() {
    let mut group: Group<Square> = Group::new("", Coordinate::new(50, 50));
    group.push(Node::new("", Coordinate::new(10, 20)));
    group.push(Node::new("", Coordinate::new(30, 5)));
    let (min, max) = get_parameters(&group);
    assert_eq!(min, Coordinate::new(0, 0));
    assert_eq!(max, Coordinate::new(30, 20));
    let mut other: Group<Square> = Group::new("", Coordinate::new(0, 0));
    other.push(Node::new("", Coordinate::new(-10, 40)));
    other.push(Node::new("", Coordinate::new(3, -7)));
    let (min, max) = get_parameters(&other);
    assert_eq!(min, Coordinate::new(-10, -7));
    assert_eq!(max, Coordinate::new(3, 40));
    let list = vec![group, other];
    assert_eq!(min_max(&list), ((-10, 30), (-7, 40)));
    let empty: Vec<Group<Square>> = Vec::new();
    assert_eq!(min_max(&empty), ((0, 0), (0, 0)));
}

#[test]
fn a_new_group_is_empty_and_black() {
    let group: Group<Square> = Group::new("north", Coordinate::new(4, -4));
    assert_eq!(group.get_nodes().len(), 0);
    assert_eq!(group.settings.geo, Coordinate::new(4, -4));
    assert_eq!(group.settings.hash, calculate_hash("north"));
    assert_eq!(group.settings.color, Color { r: 0, g: 0, b: 0, a: 255 });
    assert_eq!(group.settings.radius, None);
}

#[test]
fn dynamic_radius_grows_with_the_members() {
    let mut group: Group<Square> = Group::new("", Coordinate::new(0, 0));
    assert_eq!(group.get_dynamic_radius(), 10);
    group.push(Node::new("a", Coordinate::new(1, 1)));
    assert_eq!(group.get_dynamic_radius(), 10);
    group.push(Node::new("b", Coordinate::new(1, 1)));
    assert_eq!(group.get_dynamic_radius(), 11);
    for _ in 0..7 {
        group.push(Node::new("c", Coordinate::new(1, 1)));
    }
    assert_eq!(group.get_dynamic_radius(), 14);
    group.settings.radius = Some(3);
    assert_eq!(group.get_dynamic_radius(), 3);
}

#[test]
fn new_node_draws_within_the_radius_before_the_node_is_added() {
    let mut group: Group<Square> = Group::new("", Coordinate::new(20, 20));
    for n in 0u32..40 {
        let radius = group.get_dynamic_radius();
        assert_eq!(radius, 10 + n / 2);
        let d = group.new_node();
        assert_eq!(d.center, Coordinate::new(20, 20));
        assert!(d.radius < radius);
        assert!(d.drop < radius);
        let geo = resolve(&d);
        let before = group.nodes.len();
        let node = group.new_node_inner(geo, "n");
        assert_eq!(node.geo, geo);
        assert_eq!(node.hash, calculate_hash("n"));
        assert_eq!(node.radius, None);
        assert_eq!(group.nodes.len(), before + 1);
    }
}

#[test]
fn new_node_with_bounds_draws_between_them() {
    let group: Group<Square> = Group::new("", Coordinate::new(0, 0));
    for _ in 0..500 {
        let d = group.new_node_min_auto(2);
        assert!(d.radius < 7 && d.drop < 7);
        let d = group.new_node_min_max(30, 33);
        assert!(d.radius >= 30 && d.radius < 33);
        assert!(d.drop >= 30 && d.drop < 33);
        assert!(d.angle < 360);
    }
}

#[test]
fn push_appends_behind_the_others() {
    let mut group: Group<Square> = Group::new("", Coordinate::new(0, 0));
    group.push(Node::new("a", Coordinate::new(1, 2)));
    group.push(Node::new("b", Coordinate::new(3, 4)));
    assert_eq!(group.get_nodes().len(), 2);
    assert_eq!(group.get_nodes()[0].geo, Coordinate::new(1, 2));
    assert_eq!(group.get_nodes()[1].geo, Coordinate::new(3, 4));
    assert_eq!(group.get_nodes()[1].hash, calculate_hash("b"));
}

#[test]
fn gen_color_darkens_with_the_distance() {
    let mut group: Group<Square> = Group::new("", Coordinate::new(0, 0));
    group.settings.color = Color { r: 90, g: 120, b: 150, a: 255 };
    group.settings.radius = Some(30);
    assert_eq!(
        group.gen_color(Coordinate::new(10, 20)),
        Color { r: 30, g: 60, b: 90, a: 255 }
    );
    assert_eq!(
        group.gen_color(Coordinate::new(0, 0)),
        Color { r: 90, g: 120, b: 150, a: 255 }
    );
    assert_eq!(
        group.gen_color(Coordinate::new(-30, 30)),
        Color { r: 0, g: 0, b: 30, a: 255 }
    );
    assert_eq!(
        group.gen_color(Coordinate::new(7, 0)),
        Color { r: 76, g: 106, b: 136, a: 255 }
    );
    group.settings.color = Color { r: 10, g: 20, b: 30, a: 7 };
    assert_eq!(
        group.gen_color(Coordinate::new(300, -300)),
        Color { r: 0, g: 0, b: 0, a: 7 }
    );
}

#[test]
fn gen_color_of_a_wide_group_is_darker_too() {
    let mut group: Group<Square> = Group::new("", Coordinate::new(0, 0));
    group.settings.color = Color { r: 100, g: 100, b: 100, a: 255 };
    group.settings.radius = Some(40000);
    assert_eq!(
        group.gen_color(Coordinate::new(30000, 30000)),
        Color { r: 25, g: 25, b: 25, a: 255 }
    );
    group.settings.radius = Some(65536);
    assert_eq!(
        group.gen_color(Coordinate::new(32767, 32767)),
        Color { r: 51, g: 51, b: 51, a: 255 }
    );
    group.settings.radius = Some(u32::MAX);
    assert_eq!(
        group.gen_color(Coordinate::new(32767, -32767)),
        Color { r: 100, g: 100, b: 100, a: 255 }
    );
}

#[test]
fn gen_color_never_brightens_and_darkens_with_the_distance() {
    let mut group: Group<Square> = Group::new("", Coordinate::new(5, -5));
    group.settings.color = Color { r: 200, g: 90, b: 10, a: 77 };
    for radius in [1u32, 3, 10, 250, 32767, 32768, 40000, 65535, 65536, 1 << 31, u32::MAX] {
        group.settings.radius = Some(radius);
        let steps = [0i16, 1, 2, 7, 50, 900, 20000];
        for (i, dx) in steps.iter().enumerate() {
            for (j, dy) in steps.iter().enumerate() {
                let near = group.gen_color(Coordinate::new(5 + dx, -5 - dy));
                assert!(near.r <= 200 && near.g <= 90 && near.b <= 10);
                assert_eq!(near.a, 77);
                for fx in steps[i..].iter() {
                    for fy in steps[j..].iter() {
                        let far = group.gen_color(Coordinate::new(5 - fx, -5 + fy));
                        assert!(far.r <= near.r && far.g <= near.g && far.b <= near.b);
                    }
                }
            }
        }
    }
}

#[test]
fn count_of_joined_lists_is_the_sum() {
    let mut a = groups_at(&[(0, 0), (1, 1)]);
    a[0].nodes = nodes_at(&[(0, 0), (0, 0)]);
    a[1].nodes = nodes_at(&[(3, 3)]);
    let mut b = groups_at(&[(2, 2)]);
    b[0].nodes = nodes_at(&[(1, 1), (2, 2), (3, 3), (4, 4)]);
    let (ca, cb) = (count(&a), count(&b));
    assert_eq!(ca, 3);
    assert_eq!(cb, 4);
    let mut joined = a;
    joined.append(&mut b);
    assert_eq!(count(&joined), ca + cb);
}

#[test]
fn gen_color_of_a_group_without_extent() {
    let mut group: Group<Square> = Group::new("", Coordinate::new(0, 0));
    group.settings.color = Color { r: 90, g: 120, b: 150, a: 9 };
    group.settings.radius = Some(0);
    assert_eq!(group.gen_color(Coordinate::new(1, 1)), Color { r: 0, g: 0, b: 0, a: 9 });
    assert_eq!(
        group.gen_color(Coordinate::new(0, 5)),
        Color { r: 90, g: 120, b: 150, a: 9 }
    );
    assert_eq!(
        group.gen_color(Coordinate::new(0, 0)),
        Color { r: 90, g: 120, b: 150, a: 9 }
    );
    group.settings.color = Color { r: 0, g: 0, b: 2, a: 9 };
    assert_eq!(group.gen_color(Coordinate::new(4, 4)), Color { r: 0, g: 0, b: 2, a: 9 });
}

#[test]
fn gen_color_is_the_exact_quotient_cut_off() {
    let mut group: Group<Square> = Group::new("", Coordinate::new(3, -2));
    group.settings.color = Color { r: 250, g: 20, b: 120, a: 255 };
    for radius in [0u32, 1, 2, 7, 16, 30, 64, 100, 40000, 65535, 65536, 70000] {
        group.settings.radius = Some(radius);
        let r = radius as i64;
        for x in [-40i16, -8, 0, 1, 5, 13, 64] {
            for y in [-64i16, -16, -3, 0, 2, 8, 32] {
                let at = Coordinate::new(x, y);
                let c = group.gen_color(at);
                let c = [c.r as i32, c.g as i32, c.b as i32, c.a as i32];
                let scaled = shade_by_scale(&group, at);
                let product = 130 * ((x as i64 - 3).abs() + (y as i64 + 2).abs());
                if r == 0 || product % (2 * r) != 0 {
                    assert_eq!(c, scaled);
                } else {
                    let exact = (-(product / (2 * r))) as i32;
                    let clamp = |v: i32| v.max(0).min(255);
                    assert_eq!(c, [clamp(250 + exact), clamp(20 + exact), clamp(120 + exact), 255]);
                    for k in 0..4 {
                        assert!((c[k] - scaled[k]).abs() <= 1);
                    }
                }
            }
        }
    }
}
