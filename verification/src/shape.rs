//! The shapes a node can take, each as the list of pixels it covers at a
//! given size, counted from its own origin.

use vstd::prelude::*;
use crate::coordinate::Coordinate;

verus! {

/// A shape lists the pixels it covers at a size, relative to `(0, 0)`.
pub trait Shape: Sized {
    /// The sizes at which the shape can be enumerated.
    spec fn admits(&self, size: u32) -> bool;

    /// The pixels of the shape at a size, in the order they are listed.
    spec fn outline(&self, size: u32) -> Seq<Coordinate>;

    fn new() -> Self;

    /// Whether the shape can be enumerated at a size.
    fn accepts(&self, size: u32) -> (ok: bool)
        ensures
            ok == self.admits(size),
    ;

    /// Returns all coordinates that the shape occupies.
    fn area(&self, size: u32) -> (pts: Vec<Coordinate>)
        requires
            self.admits(size),
        ensures
            pts@ == self.outline(size),
    ;
}

/// A filled square with its corner at the origin.
#[derive(Debug, Clone, Copy)]
pub struct Square {}

/// Rims of growing size round a middle: an approximation of a disk.
#[derive(Debug, Clone, Copy)]
pub struct Circle {}

/// The pixel in column `i`, row `j`.
pub open spec fn cell(i: int, j: int) -> Coordinate {
    Coordinate { x: i as i16, y: j as i16 }
}

/// One column of a square: the rows `0..size` at column `i`.
pub open spec fn square_column(i: int, size: int) -> Seq<Coordinate> {
    Seq::new(size as nat, |j: int| cell(i, j))
}

/// The first `n` columns of a square of the given size, one after another.
pub open spec fn square_columns(n: nat, size: int) -> Seq<Coordinate>
    decreases n,
{
    if n == 0 {
        Seq::empty()
    } else {
        square_columns((n - 1) as nat, size) + square_column(n - 1, size)
    }
}

/// The first `n` columns of a square hold `size` pixels each.
pub proof fn lemma_square_count(n: nat, size: int)
    requires
        0 <= size,
    ensures
        square_columns(n, size).len() == n * size,
    decreases n,
{
    if n > 0 {
        let m = (n - 1) as nat;
        lemma_square_count(m, size);
        assert(m * size + size == n * size) by (nonlinear_arith)
            requires
                m + 1 == n,
        ;
    } else {
        assert(n * size == 0) by (nonlinear_arith)
            requires
                n == 0,
        ;
    }
}

/// The largest size of a square whose columns and rows a coordinate can
/// hold.
pub const SQUARE_LIMIT: u32 = 32768;

/// Every pixel of the first `n` columns of a square lies in a column below
/// `n` and a row below `size`, as long as a coordinate can hold both.
pub proof fn lemma_square_within(n: nat, size: int, k: int)
    requires
        0 <= size <= SQUARE_LIMIT,
        n <= SQUARE_LIMIT,
        0 <= k < square_columns(n, size).len(),
    ensures
        0 <= square_columns(n, size)[k].x < n,
        0 <= square_columns(n, size)[k].y < size,
    decreases n,
{
    if n > 0 {
        let before = square_columns((n - 1) as nat, size);
        if k < before.len() {
            lemma_square_within((n - 1) as nat, size, k);
        } else {
            let j = k - before.len();
            assert(square_columns(n, size)[k] == square_column(n - 1, size)[j]);
            assert(square_column(n - 1, size)[j] == cell(n - 1, j));
        }
    }
}

/// A square of size `n` covers exactly `n * n` pixels, and each of them
/// has both its column and its row in `0..n`.
pub proof fn lemma_square_area(size: u32)
    requires
        (Square {  }).admits(size),
    ensures
        (Square {  }).outline(size).len() == size * size,
        forall|k: int|
            0 <= k < (Square {  }).outline(size).len() ==> 0 <= (#[trigger] (Square {  }).outline(
                size,
            )[k]).x < size && 0 <= (Square {  }).outline(size)[k].y < size,
{
    lemma_square_count(size as nat, size as int);
    assert forall|k: int| 0 <= k < (Square {  }).outline(size).len() implies 0 <= (
    #[trigger] (Square {  }).outline(size)[k]).x < size && 0 <= (Square {  }).outline(
        size,
    )[k].y < size by {
        lemma_square_within(size as nat, size as int, k);
    }
}

/// The largest size of a circle whose squares still fit a coordinate.
pub const CIRCLE_LIMIT: u32 = 181;

/// `y` is the square root of `v` after a bias of a tenth upward, cut to a
/// whole number: `y - 0.1 <= sqrt(v) < y + 0.9`, stated in tenths.
pub open spec fn is_biased_root(v: int, y: int) -> bool {
    &&& 0 <= y
    &&& y == 0 || (10 * y - 1) * (10 * y - 1) <= 100 * v
    &&& 100 * v < (10 * y + 9) * (10 * y + 9)
}

/// The biased root of `v`.
pub open spec fn biased_root(v: int) -> int {
    choose|y: int| is_biased_root(v, y)
}

/// No number has two biased roots.
pub proof fn lemma_biased_root_unique(v: int, y1: int, y2: int)
    requires
        is_biased_root(v, y1),
        is_biased_root(v, y2),
    ensures
        y1 == y2,
{
    if y1 < y2 {
        assert((10 * y1 + 9) * (10 * y1 + 9) <= (10 * y2 - 1) * (10 * y2 - 1)) by (nonlinear_arith)
            requires
                0 <= y1,
                y1 + 1 <= y2,
        ;
    }
    if y2 < y1 {
        assert((10 * y2 + 9) * (10 * y2 + 9) <= (10 * y1 - 1) * (10 * y1 - 1)) by (nonlinear_arith)
            requires
                0 <= y2,
                y2 + 1 <= y1,
        ;
    }
}

/// The square of `y + 0.9`, in hundredths.
fn upper_mark(y: u32) -> (m: u32)
    requires
        y <= CIRCLE_LIMIT,
    ensures
        m == (10 * y + 9) * (10 * y + 9),
{
    let edge: u32 = 10 * y + 9;
    assert(edge * edge <= 1819 * 1819) by (nonlinear_arith)
        requires
            edge <= 1819,
    ;
    edge * edge
}

/// The height of a circle's rim above its middle at a column: the biased
/// root of what the radius leaves.
fn rim_height(v: u32) -> (y: u32)
    requires
        v <= CIRCLE_LIMIT * CIRCLE_LIMIT,
    ensures
        y as int == biased_root(v as int),
        y <= CIRCLE_LIMIT,
{
    let mut y: u32 = 0;
    while y < CIRCLE_LIMIT && 100 * v >= upper_mark(y)
        invariant
            v <= CIRCLE_LIMIT * CIRCLE_LIMIT,
            y <= CIRCLE_LIMIT,
            y == 0 || (10 * y - 1) * (10 * y - 1) <= 100 * v,
        decreases CIRCLE_LIMIT - y,
    {
        y = y + 1;
    }
    proof {
        assert(100 * (v as int) < (10 * y + 9) * (10 * y + 9)) by {
            if y == CIRCLE_LIMIT {
                assert(100 * (v as int) <= 100 * 181 * 181);
                assert((10 * y + 9) * (10 * y + 9) == 1819 * 1819) by (nonlinear_arith)
                    requires
                        y == 181,
                ;
            }
        }
        assert(is_biased_root(v as int, y as int));
        lemma_biased_root_unique(v as int, y as int, biased_root(v as int));
    }
    y
}

/// One of the four pixels that a ring emits at a column: the column `k / 4`
/// either side of the middle, at the rim's height above and below it.
pub open spec fn ring_point(size: int, k: int) -> Coordinate {
    let h = size / 2;
    let x = k / 4;
    let y = biased_root(size * size - x * x);
    if k % 4 == 0 {
        Coordinate { x: (h + x) as i16, y: (h + y) as i16 }
    } else if k % 4 == 1 {
        Coordinate { x: (h + x) as i16, y: (h - y) as i16 }
    } else if k % 4 == 2 {
        Coordinate { x: (h - x) as i16, y: (h + y) as i16 }
    } else {
        Coordinate { x: (h - x) as i16, y: (h - y) as i16 }
    }
}

/// The rim of a circle of the given size: four pixels for each column in
/// `0..=size`.
pub open spec fn ring(size: int) -> Seq<Coordinate> {
    Seq::new((4 * (size + 1)) as nat, |k: int| ring_point(size, k))
}

/// The rims of the sizes `0..n`, one after another.
pub open spec fn rings(n: nat) -> Seq<Coordinate>
    decreases n,
{
    if n == 0 {
        Seq::empty()
    } else {
        rings((n - 1) as nat) + ring(n - 1)
    }
}

fn ring_of(size: u32) -> (pts: Vec<Coordinate>)
    requires
        size <= CIRCLE_LIMIT,
    ensures
        pts@ == ring(size as int),
{
    let mut pts: Vec<Coordinate> = Vec::new();
    assert(size * size <= 181 * 181) by (nonlinear_arith)
        requires
            size <= 181,
    ;
    let r2: u32 = size * size;
    let h: i16 = (size / 2) as i16;
    let mut x: u32 = 0;
    while x <= size
        invariant
            size <= CIRCLE_LIMIT,
            x <= size + 1,
            r2 == size * size,
            h as int == size as int / 2,
            pts@.len() == 4 * x,
            forall|k: int| 0 <= k < 4 * x ==> pts@[k] == ring_point(size as int, k),
        decreases size + 1 - x,
    {
        assert(x * x <= size * size) by (nonlinear_arith)
            requires
                x <= size,
        ;
        assert(size * size <= 181 * 181) by (nonlinear_arith)
            requires
                size <= 181,
        ;
        let y: i16 = rim_height(r2 - x * x) as i16;
        let col: i16 = x as i16;
        pts.push(Coordinate::new(h + col, h + y));
        pts.push(Coordinate::new(h + col, h - y));
        pts.push(Coordinate::new(h - col, h + y));
        pts.push(Coordinate::new(h - col, h - y));
        x = x + 1;
    }
    assert(pts@ =~= ring(size as int));
    pts
}

impl Shape for Square {
    open spec fn admits(&self, size: u32) -> bool {
        size <= SQUARE_LIMIT
    }

    open spec fn outline(&self, size: u32) -> Seq<Coordinate> {
        square_columns(size as nat, size as int)
    }

    fn new() -> Square {
        Square {  }
    }

    fn accepts(&self, size: u32) -> (ok: bool) {
        size <= SQUARE_LIMIT
    }

    /// Every pixel `(i, j)` with both below `size`, column by column.
    fn area(&self, size: u32) -> (pts: Vec<Coordinate>) {
        let mut pts: Vec<Coordinate> = Vec::new();
        let mut i: u32 = 0;
        while i < size
            invariant
                i <= size <= SQUARE_LIMIT,
                pts@ == square_columns(i as nat, size as int),
            decreases size - i,
        {
            let ghost before = pts@;
            let mut j: u32 = 0;
            while j < size
                invariant
                    j <= size <= SQUARE_LIMIT,
                    i < size,
                    pts@ == before + square_column(i as int, size as int).take(j as int),
                decreases size - j,
            {
                pts.push(Coordinate::new(i as i16, j as i16));
                assert(pts@ =~= before + square_column(i as int, size as int).take(j + 1));
                j = j + 1;
            }
            assert(square_column(i as int, size as int).take(size as int) =~= square_column(
                i as int,
                size as int,
            ));
            i = i + 1;
        }
        pts
    }
}

impl Shape for Circle {
    open spec fn admits(&self, size: u32) -> bool {
        size <= CIRCLE_LIMIT
    }

    open spec fn outline(&self, size: u32) -> Seq<Coordinate> {
        if size == 0 {
            Seq::empty()
        } else {
            rings((size + 1) as nat)
        }
    }

    fn new() -> Circle {
        Circle {  }
    }

    fn accepts(&self, size: u32) -> (ok: bool) {
        size <= CIRCLE_LIMIT
    }

    /// The rims of every size up to `size`, the smallest first. Each rim is
    /// an approximation that repeats pixels; none is left out for that. A
    /// circle of size zero covers nothing.
    fn area(&self, size: u32) -> (pts: Vec<Coordinate>) {
        let mut pts: Vec<Coordinate> = Vec::new();
        if size == 0 {
            return pts;
        }
        let mut i: u32 = 0;
        while i <= size
            invariant
                size <= CIRCLE_LIMIT,
                i <= size + 1,
                pts@ == rings(i as nat),
            decreases size + 1 - i,
        {
            let mut rim = ring_of(i);
            pts.append(&mut rim);
            i = i + 1;
        }
        pts
    }
}

} // verus!
