//! Integer points of the plane, the distance between two of them along
//! each axis, and the random draws from which a point near a centre is made.

use vstd::prelude::*;
use std::cmp::Ordering;
use crate::tools::roll;

verus! {

/// Holds a position used for nodes and groups.
#[derive(Debug, Clone, Copy, PartialEq, Eq, Structural)]
pub struct Coordinate {
    pub x: i16,
    pub y: i16,
}

/// A position on a map, as the first layouts held it. It is ordered by
/// `x` alone.
#[derive(Debug, Clone, Copy, PartialEq, Eq, Structural)]
pub struct Coordinates {
    pub x: i16,
    pub y: i16,
}

/// A point near a centre, in polar form: the centre and three random draws,
/// how far out, in which direction in degrees, and how far the point is
/// lowered afterwards. The lowering is drawn on its own, so points lean to
/// one side of the centre.
#[derive(Debug, Clone, Copy, PartialEq, Eq, Structural)]
pub struct RadialDraw {
    pub center: Coordinate,
    pub radius: u32,
    pub angle: u32,
    pub drop: u32,
}

/// The distance between two numbers.
pub open spec fn gap(a: int, b: int) -> int {
    if a >= b {
        a - b
    } else {
        b - a
    }
}

/// Two points are near enough that their distance along each axis is an `i16`.
pub open spec fn within_reach(c1: Coordinate, c2: Coordinate) -> bool {
    gap(c1.x as int, c2.x as int) <= i16::MAX && gap(c1.y as int, c2.y as int) <= i16::MAX
}

/// `rand::random::<i16>()`, drawn from the thread-local generator: any
/// `i16` may come back.
#[verifier::external_body]
fn random_i16() -> i16 {
    rand::random::<i16>()
}

fn axis_gap(a: i16, b: i16) -> (d: i16)
    requires
        gap(a as int, b as int) <= i16::MAX,
    ensures
        d as int == gap(a as int, b as int),
{
    if a >= b {
        a - b
    } else {
        b - a
    }
}

impl Coordinate {
    /// Constructs a coordinate.
    pub fn new(x: i16, y: i16) -> (c: Coordinate)
        ensures
            c.x == x,
            c.y == y,
    {
        Coordinate { x, y }
    }

    /// A coordinate anywhere on the plane, each axis drawn at random.
    pub fn gen() -> Coordinate {
        Coordinate { x: random_i16(), y: random_i16() }
    }

    /// Whether the distance to another coordinate along each axis is an
    /// `i16`.
    pub fn reaches(&self, other: &Coordinate) -> (ok: bool)
        ensures
            ok == within_reach(*self, *other),
    {
        let dx: i32 = self.x as i32 - other.x as i32;
        let dy: i32 = self.y as i32 - other.y as i32;
        -32767 <= dx && dx <= 32767 && -32767 <= dy && dy <= 32767
    }

    /// The distance to another coordinate along each axis.
    pub fn diff(&self, other: &Coordinate) -> (d: (i16, i16))
        requires
            within_reach(*self, *other),
        ensures
            d.0 as int == gap(self.x as int, other.x as int),
            d.1 as int == gap(self.y as int, other.y as int),
    {
        self::diff(self, other)
    }

    /// The number by which coordinates are ordered: the sum of both axes.
    pub open spec fn weight(self) -> int {
        self.x as int + self.y as int
    }

    /// Computes the number by which coordinates are ordered.
    pub fn sum(&self) -> (w: i32)
        ensures
            w as int == self.weight(),
    {
        self.x as i32 + self.y as i32
    }

    /// The point that is reached from `(x, y)` by lowering it by `drop`.
    pub fn lowered(x: i16, y: i16, drop: u32) -> (c: Coordinate)
        requires
            y as int - drop as int >= i16::MIN,
        ensures
            c.x == x,
            c.y as int == y as int - drop as int,
    {
        let low: i64 = y as i64 - drop as i64;
        Coordinate { x, y: low as i16 }
    }
}

impl RadialDraw {
    /// The point a draw stands for, once the point `(x, y)` on the circle
    /// of the drawn radius round the centre, in the drawn direction, is
    /// known: that point lowered by the second distance. There is none
    /// where the lowered point lies below what a coordinate holds.
    pub fn settle(&self, x: i16, y: i16) -> (c: Option<Coordinate>)
        ensures
            c.is_some() <==> y as int - self.drop as int >= i16::MIN,
            c matches Some(p) ==> p.x == x && p.y as int == y as int - self.drop as int,
    {
        if y as i64 - self.drop as i64 >= i16::MIN as i64 {
            Some(Coordinate::lowered(x, y, self.drop))
        } else {
            None
        }
    }
}

impl PartialOrd for Coordinate {
    /// Orders coordinates by the sum of their axes.
    fn partial_cmp(&self, other: &Coordinate) -> (r: Option<Ordering>) {
        let a: i32 = self.sum();
        let b: i32 = other.sum();
        if a < b {
            Some(Ordering::Less)
        } else if a > b {
            Some(Ordering::Greater)
        } else {
            Some(Ordering::Equal)
        }
    }
}

impl vstd::std_specs::cmp::PartialOrdSpecImpl for Coordinate {
    open spec fn obeys_partial_cmp_spec() -> bool {
        true
    }

    open spec fn partial_cmp_spec(&self, other: &Coordinate) -> Option<Ordering> {
        if self.weight() < other.weight() {
            Some(Ordering::Less)
        } else if self.weight() > other.weight() {
            Some(Ordering::Greater)
        } else {
            Some(Ordering::Equal)
        }
    }
}

impl Coordinates {
    /// Constructs a position.
    pub fn new(x: i16, y: i16) -> (c: Coordinates)
        ensures
            c.x == x,
            c.y == y,
    {
        Coordinates { x, y }
    }

    /// A position anywhere on the map, each axis drawn at random.
    pub fn gen() -> Coordinates {
        Coordinates { x: random_i16(), y: random_i16() }
    }

    /// Draws the description of a point placed at random in the outer half
    /// of a radius round a position: between half the radius and the radius
    /// out, in one of ten directions of the upper half-turn, and lowered by
    /// less than two and a quarter of the radius.
    pub fn gen_within_radius(coord: Coordinates, radius: i16) -> (d: RadialDraw)
        requires
            radius >= 4,
        ensures
            d.center == (Coordinate { x: coord.x, y: coord.y }),
            radius / 2 <= d.radius < radius,
            d.angle < 180 && d.angle % 18 == 0,
            d.drop < 2 + radius / 4,
    {
        let full: u32 = radius as u32;
        let r: u32 = roll(full / 2, full);
        let tenth: u32 = roll(0, 10);
        let drop: u32 = roll(0, 2 + full / 4);
        RadialDraw { center: Coordinate { x: coord.x, y: coord.y }, radius: r, angle: 18 * tenth, drop }
    }
}

impl PartialOrd for Coordinates {
    /// Orders positions by `x`.
    fn partial_cmp(&self, other: &Coordinates) -> (r: Option<Ordering>) {
        if self.x < other.x {
            Some(Ordering::Less)
        } else if self.x > other.x {
            Some(Ordering::Greater)
        } else {
            Some(Ordering::Equal)
        }
    }
}

impl vstd::std_specs::cmp::PartialOrdSpecImpl for Coordinates {
    open spec fn obeys_partial_cmp_spec() -> bool {
        true
    }

    open spec fn partial_cmp_spec(&self, other: &Coordinates) -> Option<Ordering> {
        if self.x < other.x {
            Some(Ordering::Less)
        } else if self.x > other.x {
            Some(Ordering::Greater)
        } else {
            Some(Ordering::Equal)
        }
    }
}

/// The distance between two coordinates along each axis.
pub fn diff(c1: &Coordinate, c2: &Coordinate) -> (d: (i16, i16))
    requires
        within_reach(*c1, *c2),
    ensures
        d.0 as int == gap(c1.x as int, c2.x as int),
        d.1 as int == gap(c1.y as int, c2.y as int),
{
    (axis_gap(c1.x, c2.x), axis_gap(c1.y, c2.y))
}

/// What holds of the draws for a point between `min` and `max` from its
/// centre: both distances lie in `[min, max)`, the direction in `[0, 360)`.
pub open spec fn drawn_within(d: RadialDraw, min: u32, max: u32) -> bool {
    &&& min <= d.radius < max
    &&& d.angle < 360
    &&& min <= d.drop < max
}

/// Draws the description of a point placed at random within `radius` of a
/// centre.
pub fn gen_within_radius(coord: &Coordinate, radius: u32) -> (d: RadialDraw)
    requires
        0 < radius,
    ensures
        d.center == *coord,
        drawn_within(d, 0, radius),
{
    gen_radius(coord, 0, radius)
}

/// Draws the description of a point placed at random between `min` and
/// `max` from a centre: the distance, the direction, and a second distance,
/// drawn independently, by which the point is lowered. The point itself is
/// `settle` of the point on the circle: `center.x + radius * cos(angle)` and
/// `center.y + radius * sin(angle)`, each cut to a whole number.
pub fn gen_radius(coord: &Coordinate, min: u32, max: u32) -> (d: RadialDraw)
    requires
        min < max,
    ensures
        d.center == *coord,
        drawn_within(d, min, max),
{
    let radius: u32 = roll(min, max);
    let angle: u32 = roll(0, 360);
    let drop: u32 = roll(min, max);
    RadialDraw { center: *coord, radius, angle, drop }
}

} // verus!
