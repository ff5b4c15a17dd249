//! Nodes: positioned, coloured, optionally sized shapes with an identity
//! made from their name.

use vstd::prelude::*;
use vstd::string::StringSliceAdditionalSpecFns;
use vstd::std_specs::hash::DefaultHasherAdditionalSpecFns;
use std::collections::hash_map::DefaultHasher;
use std::hash::Hasher;
use crate::coordinate::Coordinate;
use crate::shape::Shape;
use crate::text::{decimal, decimal_of};
use crate::surface::{Color, Surface, addressable, all_inside, opaque_black, paint, surface_height,
    surface_pixels, surface_width};

verus! {

/// A positioned object that can be drawn on a surface.
#[derive(Clone)]
pub struct Node<T: Shape> {
    pub hash: u64,
    pub geo: Coordinate,
    pub color: Color,
    pub radius: Option<u32>,
    pub shape: T,
}

/// The identity of a name: what the default hasher makes of the name's
/// bytes followed by one byte `0xff`.
pub open spec fn name_hash(name: Seq<u8>) -> u64 {
    DefaultHasher::spec_finish(seq![name, seq![0xffu8]])
}

/// Computes the identity of a name.
pub fn calculate_hash(name: &str) -> (h: u64)
    ensures
        h == name_hash(name.spec_bytes()),
{
    let mut state = DefaultHasher::new();
    state.write(name.as_bytes());
    let end: [u8; 1] = [0xffu8];
    state.write(end.as_slice());
    assert(end@ =~= seq![0xffu8]);
    assert(state@ =~= seq![name.spec_bytes(), seq![0xffu8]]);
    state.finish()
}

impl<T: Shape> Node<T> {
    /// Constructs a node: opaque black, without a radius of its own.
    pub fn new(name: &str, geo: Coordinate) -> (node: Node<T>)
        ensures
            node.hash == name_hash(name.spec_bytes()),
            node.geo == geo,
            node.color == opaque_black(),
            node.radius.is_none(),
    {
        Node { hash: calculate_hash(name), geo, color: Color::black(), radius: None, shape: T::new() }
    }

    /// The text by which a node is known in saved links: its identity in
    /// decimal digits.
    pub open spec fn id_text(&self) -> Seq<u8> {
        decimal(self.hash as nat)
    }

    /// Writes the node's identity as text.
    pub fn gen_id(&self) -> (id: Vec<u8>)
        ensures
            id@ == self.id_text(),
    {
        decimal_of(self.hash)
    }

    /// The size a node is drawn at: its own radius, or else the fallback.
    pub open spec fn size_for(&self, fallback: u32) -> u32 {
        match self.radius {
            Some(r) => r,
            None => fallback,
        }
    }

    /// The pixels a node covers when drawn: each pixel of its shape, moved
    /// by the node's position and by the offsets.
    pub open spec fn footprint(&self, x_offset: u32, y_offset: u32, size: u32) -> Seq<(int, int)> {
        let pts = self.shape.outline(self.size_for(size));
        Seq::new(
            pts.len(),
            |k: int| (self.geo.x + x_offset + pts[k].x, self.geo.y + y_offset + pts[k].y),
        )
    }

    /// A node can be drawn on a surface of the given measures: its shape
    /// can be enumerated at its size and none of its pixels falls outside.
    pub open spec fn fits(&self, width: int, height: int, x_offset: u32, y_offset: u32, size: u32) -> bool {
        &&& self.shape.admits(self.size_for(size))
        &&& addressable(width, height)
        &&& all_inside(self.footprint(x_offset, y_offset, size), width, height)
    }

    /// Whether a node can be drawn on a surface.
    pub fn can_draw(&self, image: &Surface, x_offset: u32, y_offset: u32, size: u32) -> (ok: bool)
        ensures
            ok == self.fits(
                surface_width(*image),
                surface_height(*image),
                x_offset,
                y_offset,
                size,
            ),
    {
        let own: u32 = match self.radius {
            Some(r) => r,
            None => size,
        };
        if !self.shape.accepts(own) || !image.is_addressable() {
            return false;
        }
        let w: u32 = image.width();
        let h: u32 = image.height();
        let pts = self.shape.area(own);
        let ghost at = self.footprint(x_offset, y_offset, size);
        let mut k: usize = 0;
        while k < pts.len()
            invariant
                k <= pts@.len(),
                pts@ == self.shape.outline(own),
                own == self.size_for(size),
                at == self.footprint(x_offset, y_offset, size),
                at.len() == pts@.len(),
                w as int == surface_width(*image),
                h as int == surface_height(*image),
                addressable(w as int, h as int),
                self.shape.admits(own),
                forall|j: int| 0 <= j < k ==> 0 <= (#[trigger] at[j]).0 < w && 0 <= at[j].1 < h,
            decreases pts@.len() - k,
        {
            let offset = pts[k];
            let x: i64 = self.geo.x as i64 + x_offset as i64 + offset.x as i64;
            let y: i64 = self.geo.y as i64 + y_offset as i64 + offset.y as i64;
            assert(at[k as int] == (x as int, y as int));
            if x < 0 || x >= w as i64 || y < 0 || y >= h as i64 {
                assert(!(0 <= at[k as int].0 < w && 0 <= at[k as int].1 < h));
                assert(!all_inside(at, w as int, h as int));
                return false;
            }
            k = k + 1;
        }
        true
    }

    /// Draws a node on a surface where it can be drawn, and says whether
    /// it was; a surface that cannot take the node is left as it is.
    pub fn try_draw(&self, image: &mut Surface, x_offset: u32, y_offset: u32, size: u32) -> (done:
        bool)
        ensures
            done == self.fits(
                surface_width(*old(image)),
                surface_height(*old(image)),
                x_offset,
                y_offset,
                size,
            ),
            surface_width(*final(image)) == surface_width(*old(image)),
            surface_height(*final(image)) == surface_height(*old(image)),
            done ==> surface_pixels(*final(image)) == paint(
                surface_pixels(*old(image)),
                self.footprint(x_offset, y_offset, size),
                opaque_black(),
            ),
            !done ==> surface_pixels(*final(image)) == surface_pixels(*old(image)),
    {
        if self.can_draw(image, x_offset, y_offset, size) {
            self.draw(image, x_offset, y_offset, size);
            true
        } else {
            false
        }
    }

    /// Draws a node on a surface: every pixel of its footprint turns opaque
    /// black, whatever colour the node holds.
    pub fn draw(&self, image: &mut Surface, x_offset: u32, y_offset: u32, size: u32)
        requires
            self.fits(
                surface_width(*old(image)),
                surface_height(*old(image)),
                x_offset,
                y_offset,
                size,
            ),
        ensures
            surface_width(*final(image)) == surface_width(*old(image)),
            surface_height(*final(image)) == surface_height(*old(image)),
            surface_pixels(*final(image)) == paint(
                surface_pixels(*old(image)),
                self.footprint(x_offset, y_offset, size),
                opaque_black(),
            ),
    {
        let size: u32 = match self.radius {
            Some(r) => r,
            None => size,
        };
        let pts = self.shape.area(size);
        let ghost before = surface_pixels(*image);
        let ghost width = surface_width(*image);
        let ghost height = surface_height(*image);
        let ghost at = self.footprint(x_offset, y_offset, size);
        let mut k: usize = 0;
        while k < pts.len()
            invariant
                k <= pts@.len(),
                pts@ == self.shape.outline(size),
                at == self.footprint(x_offset, y_offset, size),
                at.len() == pts@.len(),
                size == self.size_for(size),
                surface_width(*image) == width,
                surface_height(*image) == height,
                addressable(width, height),
                all_inside(at, width, height),
                surface_pixels(*image) == paint(before, at.take(k as int), opaque_black()),
            decreases pts@.len() - k,
        {
            let offset = pts[k];
            let x: i64 = self.geo.x as i64 + x_offset as i64 + offset.x as i64;
            let y: i64 = self.geo.y as i64 + y_offset as i64 + offset.y as i64;
            assert(at[k as int] == (x as int, y as int));
            assert(0 <= at[k as int].0 < width && 0 <= at[k as int].1 < height);
            assert(width <= u32::MAX && height <= u32::MAX) by (nonlinear_arith)
                requires
                    width * height <= u32::MAX,
                    width >= 1,
                    height >= 1,
            ;
            image.put_pixel(x as u32, y as u32, Color::black());
            assert(at.take(k + 1).drop_last() =~= at.take(k as int));
            assert(at.take(k + 1).last() == at[k as int]);
            k = k + 1;
        }
        assert(at.take(pts@.len() as int) =~= at);
    }
}

} // verus!
