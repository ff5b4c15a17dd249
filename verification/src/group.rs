//! Groups: nodes gathered round a settings node that gives them their
//! centre, their colour and their radius; and what can be measured of a
//! list of groups.

use vstd::prelude::*;
use vstd::string::StringSliceAdditionalSpecFns;
use crate::coordinate::{Coordinate, RadialDraw, drawn_within, gap, gen_radius, within_reach};
use crate::node::{Node, name_hash};
use crate::shape::Shape;
use crate::surface::{Color, Surface, clear_pixels, opaque_black, paint, surface_height, surface_pixels,
    surface_width};
use crate::tools::{border, clamp_channel};

verus! {

/// Holds a set of nodes and applies properties to all child nodes when
/// drawn. The group itself has no displayed output and is not visible.
#[derive(Clone)]
pub struct Group<T: Shape> {
    pub settings: Node<T>,
    pub nodes: Vec<Node<T>>,
}

/// How much darker a point is than its group's centre: the mean colour
/// of the group, scaled by the point's distance along both axes over twice
/// the radius, cut to a whole number and never above zero. A radius of zero
/// darkens fully what lies off both axes of a coloured group's centre and
/// nothing else.
pub open spec fn shade(mean: int, dx: int, dy: int, radius: int) -> int {
    if radius > 0 {
        -((mean * (dx + dy)) / (2 * radius))
    } else if dx > 0 && dy > 0 && mean > 0 {
        i32::MIN as int
    } else {
        0
    }
}

/// The shade is never above zero, and falls or stays as a point moves away
/// from the centre along either axis.
pub proof fn lemma_shade_falls(mean: int, dx: int, dy: int, further_x: int, further_y: int, radius: int)
    requires
        0 <= mean,
        0 <= dx <= further_x,
        0 <= dy <= further_y,
        0 < radius,
    ensures
        shade(mean, further_x, further_y, radius) <= shade(mean, dx, dy, radius) <= 0,
{
    assert(0 <= mean * (dx + dy) <= mean * (further_x + further_y)) by (nonlinear_arith)
        requires
            0 <= mean,
            0 <= dx <= further_x,
            0 <= dy <= further_y,
    ;
    vstd::arithmetic::div_mod::lemma_div_is_ordered(0, mean * (dx + dy), 2 * radius);
    vstd::arithmetic::div_mod::lemma_div_is_ordered(
        mean * (dx + dy),
        mean * (further_x + further_y),
        2 * radius,
    );
}

/// The pixels after each of a list of nodes was drawn, the first node first.
pub open spec fn drawn<T: Shape>(
    nodes: Seq<Node<T>>,
    pixels: Map<(int, int), (u8, u8, u8, u8)>,
    x_offset: u32,
    y_offset: u32,
    size: u32,
) -> Map<(int, int), (u8, u8, u8, u8)>
    decreases nodes.len(),
{
    if nodes.len() == 0 {
        pixels
    } else {
        paint(
            drawn(nodes.drop_last(), pixels, x_offset, y_offset, size),
            nodes.last().footprint(x_offset, y_offset, size),
            opaque_black(),
        )
    }
}

/// The pixels after each of a list of groups was drawn, the first group
/// first.
pub open spec fn drawn_groups<T: Shape>(
    groups: Seq<Group<T>>,
    pixels: Map<(int, int), (u8, u8, u8, u8)>,
    x_offset: u32,
    y_offset: u32,
    size: u32,
) -> Map<(int, int), (u8, u8, u8, u8)>
    decreases groups.len(),
{
    if groups.len() == 0 {
        pixels
    } else {
        drawn(
            groups.last().nodes@,
            drawn_groups(groups.drop_last(), pixels, x_offset, y_offset, size),
            x_offset,
            y_offset,
            size,
        )
    }
}

/// Every group of a list can be drawn on a surface of the given measures.
pub open spec fn all_fit<T: Shape>(
    groups: Seq<Group<T>>,
    width: int,
    height: int,
    x_offset: u32,
    y_offset: u32,
    size: u32,
) -> bool {
    forall|g: int|
        0 <= g < groups.len() ==> (#[trigger] groups[g]).fits(width, height, x_offset, y_offset, size)
}

/// Draws a list of groups on a surface, one after another.
pub fn render<T: Shape>(
    groups: &[Group<T>],
    image: &mut Surface,
    x_offset: u32,
    y_offset: u32,
    size: u32,
)
    requires
        all_fit(
            groups@,
            surface_width(*old(image)),
            surface_height(*old(image)),
            x_offset,
            y_offset,
            size,
        ),
    ensures
        surface_width(*final(image)) == surface_width(*old(image)),
        surface_height(*final(image)) == surface_height(*old(image)),
        surface_pixels(*final(image)) == drawn_groups(
            groups@,
            surface_pixels(*old(image)),
            x_offset,
            y_offset,
            size,
        ),
{
    let ghost before = surface_pixels(*image);
    let ghost width = surface_width(*image);
    let ghost height = surface_height(*image);
    let mut g: usize = 0;
    assert(groups@.take(0).len() == 0);
    while g < groups.len()
        invariant
            g <= groups@.len(),
            surface_width(*image) == width,
            surface_height(*image) == height,
            all_fit(groups@, width, height, x_offset, y_offset, size),
            surface_pixels(*image) == drawn_groups(
                groups@.take(g as int),
                before,
                x_offset,
                y_offset,
                size,
            ),
        decreases groups@.len() - g,
    {
        assert(groups@[g as int].fits(width, height, x_offset, y_offset, size));
        groups[g].draw(image, x_offset, y_offset, size);
        assert(groups@.take(g + 1).drop_last() =~= groups@.take(g as int));
        assert(groups@.take(g + 1).last() == groups@[g as int]);
        g = g + 1;
    }
    assert(groups@.take(groups@.len() as int) =~= groups@);
}

/// One frame: a fresh, transparent surface of the given measures with a
/// list of groups drawn on it.
pub fn frame<T: Shape>(
    groups: &[Group<T>],
    width: u32,
    height: u32,
    x_offset: u32,
    y_offset: u32,
    size: u32,
) -> (image: Surface)
    requires
        width * height * 4 <= usize::MAX,
        all_fit(groups@, width as int, height as int, x_offset, y_offset, size),
    ensures
        surface_width(image) == width,
        surface_height(image) == height,
        surface_pixels(image) == drawn_groups(
            groups@,
            clear_pixels(width as int, height as int),
            x_offset,
            y_offset,
            size,
        ),
{
    let mut image = Surface::new(width, height);
    render(groups, &mut image, x_offset, y_offset, size);
    image
}

/// The number of nodes in the first `n` groups of a list.
pub open spec fn members<T: Shape>(list: Seq<Group<T>>, n: nat) -> nat
    decreases n,
{
    if n == 0 {
        0
    } else {
        members(list, (n - 1) as nat) + list[n - 1].nodes@.len()
    }
}

/// The positions of a group's nodes, in their order.
pub open spec fn positions_of<T: Shape>(group: Group<T>) -> Seq<Coordinate> {
    Seq::new(group.nodes@.len(), |k: int| group.nodes@[k].geo)
}

/// The positions of the nodes in the first `n` groups of a list, group
/// after group.
pub open spec fn positions_upto<T: Shape>(list: Seq<Group<T>>, n: nat) -> Seq<Coordinate>
    decreases n,
{
    if n == 0 {
        Seq::empty()
    } else {
        positions_upto(list, (n - 1) as nat) + positions_of(list[n - 1])
    }
}

/// The smallest and largest values along each axis, in the order lowest
/// `x`, lowest `y`, highest `x`, highest `y`.
pub struct Extent {
    pub min_x: i16,
    pub min_y: i16,
    pub max_x: i16,
    pub max_y: i16,
}

/// An extent is that of a list of positions taken together with the
/// origin: it holds them all, and each of its four sides is zero or touches
/// one of them.
pub open spec fn spans(e: Extent, pts: Seq<Coordinate>) -> bool {
    &&& e.min_x <= 0 <= e.max_x
    &&& e.min_y <= 0 <= e.max_y
    &&& forall|k: int|
        0 <= k < pts.len() ==> e.min_x <= (#[trigger] pts[k]).x <= e.max_x && e.min_y <= pts[k].y
            <= e.max_y
    &&& e.min_x == 0 || exists|k: int| 0 <= k < pts.len() && (#[trigger] pts[k]).x == e.min_x
    &&& e.min_y == 0 || exists|k: int| 0 <= k < pts.len() && (#[trigger] pts[k]).y == e.min_y
    &&& e.max_x == 0 || exists|k: int| 0 <= k < pts.len() && (#[trigger] pts[k]).x == e.max_x
    &&& e.max_y == 0 || exists|k: int| 0 <= k < pts.len() && (#[trigger] pts[k]).y == e.max_y
}

/// Widens an extent by one more position.
fn stretch(e: Extent, p: Coordinate, Ghost(pts): Ghost<Seq<Coordinate>>) -> (r: Extent)
    requires
        spans(e, pts),
    ensures
        spans(r, pts.push(p)),
{
    let r = Extent {
        min_x: if e.min_x > p.x { p.x } else { e.min_x },
        min_y: if e.min_y > p.y { p.y } else { e.min_y },
        max_x: if p.x > e.max_x { p.x } else { e.max_x },
        max_y: if p.y > e.max_y { p.y } else { e.max_y },
    };
    proof {
        let more = pts.push(p);
        let n = pts.len() as int;
        assert(more[n] == p);
        assert forall|k: int| 0 <= k < n implies more[k] == pts[k] by {}
        if r.min_x != 0 {
            if r.min_x == p.x {
                assert(more[n].x == r.min_x);
            } else {
                let k = choose|k: int| 0 <= k < pts.len() && (#[trigger] pts[k]).x == e.min_x;
                assert(more[k].x == r.min_x);
            }
        }
        if r.min_y != 0 {
            if r.min_y == p.y {
                assert(more[n].y == r.min_y);
            } else {
                let k = choose|k: int| 0 <= k < pts.len() && (#[trigger] pts[k]).y == e.min_y;
                assert(more[k].y == r.min_y);
            }
        }
        if r.max_x != 0 {
            if r.max_x == p.x {
                assert(more[n].x == r.max_x);
            } else {
                let k = choose|k: int| 0 <= k < pts.len() && (#[trigger] pts[k]).x == e.max_x;
                assert(more[k].x == r.max_x);
            }
        }
        if r.max_y != 0 {
            if r.max_y == p.y {
                assert(more[n].y == r.max_y);
            } else {
                let k = choose|k: int| 0 <= k < pts.len() && (#[trigger] pts[k]).y == e.max_y;
                assert(more[k].y == r.max_y);
            }
        }
    }
    r
}

/// Widens an extent by the positions of a group's nodes.
fn stretch_over<T: Shape>(e: Extent, group: &Group<T>, Ghost(pts): Ghost<Seq<Coordinate>>) -> (r:
    Extent)
    requires
        spans(e, pts),
    ensures
        spans(r, pts + positions_of(*group)),
{
    let mut r = e;
    let mut k: usize = 0;
    let ghost all = positions_of(*group);
    assert(pts + all.take(0) =~= pts);
    while k < group.nodes.len()
        invariant
            k <= group.nodes@.len(),
            all == positions_of(*group),
            spans(r, pts + all.take(k as int)),
        decreases group.nodes@.len() - k,
    {
        r = stretch(r, group.nodes[k].geo, Ghost(pts + all.take(k as int)));
        assert((pts + all.take(k as int)).push(all[k as int]) =~= pts + all.take(k + 1));
        k = k + 1;
    }
    assert(all.take(all.len() as int) =~= all);
    r
}

impl<T: Shape> Group<T> {
    /// Constructs a new group without nodes, centred on the coordinate.
    pub fn new(name: &str, coordinates: Coordinate) -> (group: Group<T>)
        ensures
            group.nodes@.len() == 0,
            group.settings.hash == name_hash(name.spec_bytes()),
            group.settings.geo == coordinates,
            group.settings.color == opaque_black(),
            group.settings.radius.is_none(),
    {
        Group { settings: Node::new(name, coordinates), nodes: Vec::new() }
    }

    /// Returns the nodes that exist inside the group.
    pub fn get_nodes(&self) -> (nodes: &Vec<Node<T>>)
        ensures
            *nodes == self.nodes,
    {
        &self.nodes
    }

    /// Every node of the group can be drawn on a surface of the given
    /// measures.
    pub open spec fn fits(&self, width: int, height: int, x_offset: u32, y_offset: u32, size: u32) -> bool {
        forall|k: int|
            0 <= k < self.nodes@.len() ==> (#[trigger] self.nodes@[k]).fits(
                width,
                height,
                x_offset,
                y_offset,
                size,
            )
    }

    /// Whether every node of the group can be drawn on a surface.
    pub fn can_draw(&self, image: &Surface, x_offset: u32, y_offset: u32, size: u32) -> (ok: bool)
        ensures
            ok == self.fits(
                surface_width(*image),
                surface_height(*image),
                x_offset,
                y_offset,
                size,
            ),
    {
        let mut k: usize = 0;
        while k < self.nodes.len()
            invariant
                k <= self.nodes@.len(),
                forall|j: int|
                    0 <= j < k ==> (#[trigger] self.nodes@[j]).fits(
                        surface_width(*image),
                        surface_height(*image),
                        x_offset,
                        y_offset,
                        size,
                    ),
            decreases self.nodes@.len() - k,
        {
            if !self.nodes[k].can_draw(image, x_offset, y_offset, size) {
                return false;
            }
            k = k + 1;
        }
        true
    }

    /// Draws the nodes of the group in the order they were added; a later
    /// node covers an earlier one. A group without nodes draws nothing.
    pub fn draw(&self, image: &mut Surface, x_offset: u32, y_offset: u32, size: u32)
        requires
            self.fits(
                surface_width(*old(image)),
                surface_height(*old(image)),
                x_offset,
                y_offset,
                size,
            ),
        ensures
            surface_width(*final(image)) == surface_width(*old(image)),
            surface_height(*final(image)) == surface_height(*old(image)),
            surface_pixels(*final(image)) == drawn(
                self.nodes@,
                surface_pixels(*old(image)),
                x_offset,
                y_offset,
                size,
            ),
    {
        let ghost before = surface_pixels(*image);
        let ghost width = surface_width(*image);
        let ghost height = surface_height(*image);
        let mut k: usize = 0;
        assert(self.nodes@.take(0).len() == 0);
        while k < self.nodes.len()
            invariant
                k <= self.nodes@.len(),
                surface_width(*image) == width,
                surface_height(*image) == height,
                self.fits(width, height, x_offset, y_offset, size),
                surface_pixels(*image) == drawn(
                    self.nodes@.take(k as int),
                    before,
                    x_offset,
                    y_offset,
                    size,
                ),
            decreases self.nodes@.len() - k,
        {
            assert(self.nodes@[k as int].fits(width, height, x_offset, y_offset, size));
            self.nodes[k].draw(image, x_offset, y_offset, size);
            assert(self.nodes@.take(k + 1).drop_last() =~= self.nodes@.take(k as int));
            assert(self.nodes@.take(k + 1).last() == self.nodes@[k as int]);
            k = k + 1;
        }
        assert(self.nodes@.take(self.nodes@.len() as int) =~= self.nodes@);
    }

    /// The radius of the group: the one its settings give, or else ten and
    /// half the number of its nodes.
    pub open spec fn dynamic_radius(&self) -> u32 {
        match self.settings.radius {
            Some(r) => r,
            None => (10 + (self.nodes@.len() as u32) / 2) as u32,
        }
    }

    /// Returns a dynamic radius based on the number of nodes in the group.
    pub fn get_dynamic_radius(&self) -> (r: u32)
        ensures
            r == self.dynamic_radius(),
            self.settings.radius.is_none() && self.nodes@.len() <= u32::MAX ==> r == 10
                + self.nodes@.len() / 2,
    {
        match self.settings.radius {
            Some(x) => x,
            None => 10 + (#[verifier::truncate] (self.nodes.len() as u32)) / 2,
        }
    }

    /// The draws for a node placed within the group's radius as it is now,
    /// before the node is added.
    pub fn new_node(&self) -> (d: RadialDraw)
        requires
            self.dynamic_radius() > 0,
        ensures
            d.center == self.settings.geo,
            drawn_within(d, 0, self.dynamic_radius()),
    {
        gen_radius(&self.settings.geo, 0, self.get_dynamic_radius())
    }

    /// The draws for a node placed within `min + 5` of the group's centre.
    pub fn new_node_min_auto(&self, min: u32) -> (d: RadialDraw)
        requires
            min + 5 <= u32::MAX,
        ensures
            d.center == self.settings.geo,
            drawn_within(d, 0, (min + 5) as u32),
    {
        gen_radius(&self.settings.geo, 0, min + 5)
    }

    /// The draws for a node placed between `min` and `max` from the
    /// group's centre.
    pub fn new_node_min_max(&self, min: u32, max: u32) -> (d: RadialDraw)
        requires
            min < max,
        ensures
            d.center == self.settings.geo,
            drawn_within(d, min, max),
    {
        gen_radius(&self.settings.geo, min, max)
    }

    /// Adds a node of the given name at a position, in the colour the group
    /// has there, and returns it.
    pub fn new_node_inner(&mut self, geo: Coordinate, name: &str) -> (node: &Node<T>)
        requires
            within_reach(old(self).settings.geo, geo),
        ensures
            final(self).settings == old(self).settings,
            final(self).nodes@.len() == old(self).nodes@.len() + 1,
            final(self).nodes@.drop_last() == old(self).nodes@,
            *node == final(self).nodes@.last(),
            node.hash == name_hash(name.spec_bytes()),
            node.geo == geo,
            node.color == old(self).shaded(geo),
            node.radius.is_none(),
    {
        let mut node: Node<T> = Node::new(name, geo);
        node.color = self.gen_color(geo);
        let ghost before = self.nodes@;
        self.push(node);
        assert(self.nodes@.drop_last() =~= before);
        let last: usize = self.nodes.len() - 1;
        &self.nodes[last]
    }

    /// Pushes a node to the group, behind those it holds.
    pub fn push(&mut self, node: Node<T>)
        ensures
            final(self).settings == old(self).settings,
            final(self).nodes@ == old(self).nodes@.push(node),
    {
        self.nodes.push(node);
    }

    /// The mean of the group's three colour channels.
    pub open spec fn mean_color(&self) -> int {
        (self.settings.color.r + self.settings.color.g + self.settings.color.b) / 3
    }

    /// The colour the group gives a point: its own colour, each channel
    /// darkened by the point's shade and kept within a byte; the opacity is
    /// the group's own.
    pub open spec fn shaded(&self, at: Coordinate) -> Color {
        let m = shade(
            self.mean_color(),
            gap(self.settings.geo.x as int, at.x as int),
            gap(self.settings.geo.y as int, at.y as int),
            self.dynamic_radius() as int,
        );
        Color {
            r: clamp_channel(self.settings.color.r + m) as u8,
            g: clamp_channel(self.settings.color.g + m) as u8,
            b: clamp_channel(self.settings.color.b + m) as u8,
            a: self.settings.color.a,
        }
    }

    /// Generates a colour based on the colour of the group and the
    /// distance from its centre.
    pub fn gen_color(&self, coordinates: Coordinate) -> (c: Color)
        requires
            within_reach(self.settings.geo, coordinates),
        ensures
            c == self.shaded(coordinates),
    {
        let radius: i64 = self.get_dynamic_radius() as i64;
        let (x_dif, y_dif) = self.settings.geo.diff(&coordinates);
        let c = self.settings.color;
        let mean: i64 = (c.r as i64 + c.g as i64 + c.b as i64) / 3;
        let reach: i64 = x_dif as i64 + y_dif as i64;
        assert(0 <= mean * reach <= 255 * 65534) by (nonlinear_arith)
            requires
                0 <= mean <= 255,
                0 <= reach <= 65534,
        ;
        let product: i64 = mean * reach;
        if radius > 0 {
            assert(0 <= (product as int) / (2 * radius) <= product) by (nonlinear_arith)
                requires
                    0 <= product,
                    0 < radius,
            ;
        }
        let modify: i32 = if radius > 0 {
            (-(product / (2 * radius))) as i32
        } else if x_dif > 0 && y_dif > 0 && mean > 0 {
            i32::MIN
        } else {
            0
        };
        assert(modify as int == shade(
            self.mean_color(),
            gap(self.settings.geo.x as int, coordinates.x as int),
            gap(self.settings.geo.y as int, coordinates.y as int),
            radius as int,
        ));
        Color { r: border(c.r, modify), g: border(c.g, modify), b: border(c.b, modify), a: border(c.a, 0) }
    }

    /// In a group with a radius above zero no point is brighter than the
    /// group itself, and a point at least as far from the centre along both
    /// axes as another is no brighter than that other, channel by channel.
    /// The opacity is the group's own everywhere.
    pub proof fn lemma_shaded_darkens(&self, near: Coordinate, far: Coordinate)
        requires
            self.dynamic_radius() > 0,
            gap(self.settings.geo.x as int, near.x as int) <= gap(
                self.settings.geo.x as int,
                far.x as int,
            ),
            gap(self.settings.geo.y as int, near.y as int) <= gap(
                self.settings.geo.y as int,
                far.y as int,
            ),
        ensures
            self.shaded(far).r <= self.shaded(near).r <= self.settings.color.r,
            self.shaded(far).g <= self.shaded(near).g <= self.settings.color.g,
            self.shaded(far).b <= self.shaded(near).b <= self.settings.color.b,
            self.shaded(far).a == self.settings.color.a,
            self.shaded(near).a == self.settings.color.a,
    {
        lemma_shade_falls(
            self.mean_color(),
            gap(self.settings.geo.x as int, near.x as int),
            gap(self.settings.geo.y as int, near.y as int),
            gap(self.settings.geo.x as int, far.x as int),
            gap(self.settings.geo.y as int, far.y as int),
            self.dynamic_radius() as int,
        );
    }
}

/// The bounds between which a node is added: the lesser and the greater
/// of the two that were asked for, with zero for a missing `min` and the
/// group's radius for a missing `max`.
pub open spec fn bounds_for<T: Shape>(group: Group<T>, min: Option<u32>, max: Option<u32>) -> (
    u32,
    u32,
) {
    let lo = match min {
        Some(v) => v,
        None => 0u32,
    };
    let hi = match max {
        Some(v) => v,
        None => group.dynamic_radius(),
    };
    if lo <= hi {
        (lo, hi)
    } else {
        (hi, lo)
    }
}

/// The name a node is added under: the one given, or else the empty name.
pub open spec fn name_or_empty(name: Option<&str>) -> Seq<u8> {
    match name {
        Some(n) => n.spec_bytes(),
        None => "".spec_bytes(),
    }
}

/// The draws for a node added to a group; every parameter but the group
/// may be left out. The two bounds may come in either order.
pub fn add_node<T: Shape>(group: &Group<T>, min: Option<u32>, max: Option<u32>) -> (d: RadialDraw)
    requires
        bounds_for(*group, min, max).0 < bounds_for(*group, min, max).1,
    ensures
        d.center == group.settings.geo,
        drawn_within(d, bounds_for(*group, min, max).0, bounds_for(*group, min, max).1),
{
    let lo: u32 = match min {
        Some(v) => v,
        None => 0,
    };
    let hi: u32 = match max {
        Some(v) => v,
        None => group.get_dynamic_radius(),
    };
    if lo <= hi {
        gen_radius(&group.settings.geo, lo, hi)
    } else {
        gen_radius(&group.settings.geo, hi, lo)
    }
}

/// Adds a node at a position to a group, under the name given or the empty
/// one, in the colour the group has there and with the group's own radius.
pub fn add_node_inner<T: Shape>(group: &mut Group<T>, name: Option<&str>, geo: Coordinate)
    requires
        within_reach(old(group).settings.geo, geo),
    ensures
        final(group).settings == old(group).settings,
        final(group).nodes@.len() == old(group).nodes@.len() + 1,
        final(group).nodes@.drop_last() == old(group).nodes@,
        final(group).nodes@.last().hash == name_hash(name_or_empty(name)),
        final(group).nodes@.last().geo == geo,
        final(group).nodes@.last().color == old(group).shaded(geo),
        final(group).nodes@.last().radius == old(group).settings.radius,
{
    let name: &str = match name {
        Some(n) => n,
        None => "",
    };
    let mut node: Node<T> = Node::new(name, geo);
    node.color = group.gen_color(geo);
    node.radius = group.settings.radius;
    let ghost before = group.nodes@;
    group.push(node);
    assert(group.nodes@.drop_last() =~= before);
}

/// Counts the child nodes in a list of groups.
pub fn count<T: Shape>(list: &[Group<T>]) -> (n: usize)
    requires
        members(list@, list@.len()) <= usize::MAX,
    ensures
        n == members(list@, list@.len()),
{
    let mut n: usize = 0;
    let mut i: usize = 0;
    while i < list.len()
        invariant
            i <= list@.len(),
            n == members(list@, i as nat),
            members(list@, list@.len()) <= usize::MAX,
        decreases list@.len() - i,
    {
        proof {
            lemma_members_grow(list@, (i + 1) as nat, list@.len());
        }
        n = n + list[i].nodes.len();
        i = i + 1;
    }
    n
}

/// The count over more groups is no smaller.
pub proof fn lemma_members_grow<T: Shape>(list: Seq<Group<T>>, a: nat, b: nat)
    requires
        a <= b,
    ensures
        members(list, a) <= members(list, b),
    decreases b,
{
    if a < b {
        lemma_members_grow(list, a, (b - 1) as nat);
    }
}

/// The count over the first groups of a list depends on those groups alone.
pub proof fn lemma_members_of_prefix<T: Shape>(a: Seq<Group<T>>, b: Seq<Group<T>>, n: nat)
    requires
        n <= a.len(),
        n <= b.len(),
        forall|k: int| 0 <= k < n ==> a[k] == b[k],
    ensures
        members(a, n) == members(b, n),
    decreases n,
{
    if n > 0 {
        lemma_members_of_prefix(a, b, (n - 1) as nat);
    }
}

/// The count over two lists joined, up to `k` groups into the second, is
/// the count of the first and the count of those `k` groups.
pub proof fn lemma_members_into_second<T: Shape>(a: Seq<Group<T>>, b: Seq<Group<T>>, k: nat)
    requires
        k <= b.len(),
    ensures
        members(a + b, a.len() + k) == members(a, a.len()) + members(b, k),
    decreases k,
{
    if k == 0 {
        lemma_members_of_prefix(a + b, a, a.len());
    } else {
        lemma_members_into_second(a, b, (k - 1) as nat);
        assert((a + b)[a.len() + k - 1] == b[k - 1]);
    }
}

/// What `count` returns is additive: a list without groups counts zero,
/// and two lists joined count as many nodes as both together.
pub proof fn lemma_members_joined<T: Shape>(a: Seq<Group<T>>, b: Seq<Group<T>>)
    ensures
        members(Seq::<Group<T>>::empty(), 0) == 0,
        members(a + b, (a + b).len()) == members(a, a.len()) + members(b, b.len()),
{
    lemma_members_into_second(a, b, b.len());
}

/// Returns the smallest and the largest position of a group's nodes along
/// each axis, the origin counted among them.
pub fn get_parameters<T: Shape>(group: &Group<T>) -> (r: (Coordinate, Coordinate))
    ensures
        spans(
            Extent { min_x: r.0.x, min_y: r.0.y, max_x: r.1.x, max_y: r.1.y },
            positions_of(*group),
        ),
{
    let start = Extent { min_x: 0, min_y: 0, max_x: 0, max_y: 0 };
    assert(Seq::<Coordinate>::empty() + positions_of(*group) =~= positions_of(*group));
    let e = stretch_over(start, group, Ghost(Seq::empty()));
    (Coordinate::new(e.min_x, e.min_y), Coordinate::new(e.max_x, e.max_y))
}

/// Finds the smallest and the largest position along each axis over the
/// nodes of every group, the origin counted among them: first the pair for
/// `x`, lowest then highest, then the pair for `y`.
pub fn min_max<T: Shape>(list: &[Group<T>]) -> (r: ((i16, i16), (i16, i16)))
    ensures
        spans(
            Extent { min_x: r.0.0, min_y: r.1.0, max_x: r.0.1, max_y: r.1.1 },
            positions_upto(list@, list@.len()),
        ),
{
    let mut e = Extent { min_x: 0, min_y: 0, max_x: 0, max_y: 0 };
    let mut i: usize = 0;
    while i < list.len()
        invariant
            i <= list@.len(),
            spans(e, positions_upto(list@, i as nat)),
        decreases list@.len() - i,
    {
        e = stretch_over(e, &list[i], Ghost(positions_upto(list@, i as nat)));
        i = i + 1;
    }
    ((e.min_x, e.max_x), (e.min_y, e.max_y))
}

} // verus!
