//! The pixel surface that nodes and links are drawn on: an RGBA image
//! buffer of the `image` crate, read and written one pixel at a time.

use vstd::prelude::*;

verus! {

/// A colour with its opacity, one byte for each channel.
#[derive(Debug, Clone, Copy, PartialEq, Eq, Structural)]
pub struct Color {
    pub r: u8,
    pub g: u8,
    pub b: u8,
    pub a: u8,
}

impl Color {
    /// The four channels in the order red, green, blue, opacity.
    pub open spec fn channels(self) -> (u8, u8, u8, u8) {
        (self.r, self.g, self.b, self.a)
    }

    /// Opaque black, the colour a node starts with.
    pub fn black() -> (c: Color)
        ensures
            c == opaque_black(),
    {
        Color { r: 0, g: 0, b: 0, a: 255 }
    }
}

/// Opaque black.
pub open spec fn opaque_black() -> Color {
    Color { r: 0, g: 0, b: 0, a: 255 }
}

/// An RGBA pixel surface: an `image::ImageBuffer` over a byte vector. What
/// it holds is known only through `surface_pixels`, `surface_width` and
/// `surface_height`, and through what its methods say over them.
#[verifier::external_body]
pub struct Surface {
    buffer: image::ImageBuffer<image::Rgba<u8>, Vec<u8>>,
}

/// The pixels of a surface: for each position `(x, y)` inside it, the four
/// channels held there.
pub uninterp spec fn surface_pixels(img: Surface) -> Map<
    (int, int),
    (u8, u8, u8, u8),
>;

/// The number of columns of a surface.
pub uninterp spec fn surface_width(img: Surface) -> int;

/// The number of rows of a surface.
pub uninterp spec fn surface_height(img: Surface) -> int;

/// The pixels of a surface of the given measures on which nothing was
/// drawn: every position inside it holds transparent black.
pub open spec fn clear_pixels(width: int, height: int) -> Map<(int, int), (u8, u8, u8, u8)> {
    Map::new(
        |at: (int, int)| 0 <= at.0 < width && 0 <= at.1 < height,
        |at: (int, int)| (0u8, 0u8, 0u8, 0u8),
    )
}

/// A surface whose pixels can be counted in a `u32`, as the buffer's own
/// addressing needs.
pub open spec fn addressable(width: int, height: int) -> bool {
    0 <= width && 0 <= height && width * height <= u32::MAX
}

/// `ImageBuffer::new`: a buffer of the given measures over a vector of
/// `width * height * 4` zero bytes, so every pixel is transparent black. The
/// product is computed in a `usize` and must fit one.
#[verifier::external_body]
fn blank(width: u32, height: u32) -> (img: Surface)
    requires
        width * height * 4 <= usize::MAX,
    ensures
        surface_width(img) == width,
        surface_height(img) == height,
        surface_pixels(img) == clear_pixels(width as int, height as int),
{
    Surface { buffer: image::ImageBuffer::new(width, height) }
}

/// `ImageBuffer::width`: the number of columns the buffer was made with.
#[verifier::external_body]
fn width_of(img: &Surface) -> (w: u32)
    ensures
        w as int == surface_width(*img),
{
    img.buffer.width()
}

/// `ImageBuffer::height`: the number of rows the buffer was made with.
#[verifier::external_body]
fn height_of(img: &Surface) -> (h: u32)
    ensures
        h as int == surface_height(*img),
{
    img.buffer.height()
}

/// `ImageBuffer::get_pixel`: the channels stored at `(x, y)`. The buffer
/// addresses a pixel by `y * width + x`, computed in a `u32`, and panics
/// outside its storage: the position must lie inside the surface and the
/// surface must be addressable.
#[verifier::external_body]
fn read_pixel(img: &Surface, x: u32, y: u32) -> (c:
    Color)
    requires
        (x as int) < surface_width(*img),
        (y as int) < surface_height(*img),
        addressable(surface_width(*img), surface_height(*img)),
    ensures
        c.channels() == surface_pixels(*img)[(x as int, y as int)],
{
    let p = img.buffer.get_pixel(x, y);
    Color { r: p.data[0], g: p.data[1], b: p.data[2], a: p.data[3] }
}

/// `ImageBuffer::put_pixel`: stores the channels at `(x, y)` and leaves
/// every other pixel and the surface's measures as they were. It panics as
/// `get_pixel` does, so the same is asked of the position.
#[verifier::external_body]
fn write_pixel(
    img: &mut Surface,
    x: u32,
    y: u32,
    c: Color,
)
    requires
        (x as int) < surface_width(*old(img)),
        (y as int) < surface_height(*old(img)),
        addressable(surface_width(*old(img)), surface_height(*old(img))),
    ensures
        surface_width(*final(img)) == surface_width(*old(img)),
        surface_height(*final(img)) == surface_height(*old(img)),
        surface_pixels(*final(img)) == surface_pixels(*old(img)).insert(
            (x as int, y as int),
            c.channels(),
        ),
{
    img.buffer.put_pixel(x, y, image::Rgba { data: [c.r, c.g, c.b, c.a] })
}

impl Surface {
    /// A surface of the given measures, every pixel transparent black.
    pub fn new(width: u32, height: u32) -> (img: Surface)
        requires
            width * height * 4 <= usize::MAX,
        ensures
            surface_width(img) == width,
            surface_height(img) == height,
            surface_pixels(img) == clear_pixels(width as int, height as int),
    {
        blank(width, height)
    }

    /// The number of columns.
    pub fn width(&self) -> (w: u32)
        ensures
            w as int == surface_width(*self),
    {
        width_of(self)
    }

    /// The number of rows.
    pub fn height(&self) -> (h: u32)
        ensures
            h as int == surface_height(*self),
    {
        height_of(self)
    }

    /// Whether the surface's pixels can be counted in a `u32`.
    pub fn is_addressable(&self) -> (ok: bool)
        ensures
            ok == addressable(surface_width(*self), surface_height(*self)),
    {
        let w: u32 = self.width();
        let h: u32 = self.height();
        assert(w * h <= 0xffff_ffff * 0xffff_ffff) by (nonlinear_arith)
            requires
                w <= 0xffff_ffff,
                h <= 0xffff_ffff,
        ;
        (w as u64) * (h as u64) <= u32::MAX as u64
    }

    /// The colour at `(x, y)`.
    pub fn get_pixel(&self, x: u32, y: u32) -> (c: Color)
        requires
            (x as int) < surface_width(*self),
            (y as int) < surface_height(*self),
            addressable(surface_width(*self), surface_height(*self)),
        ensures
            c.channels() == surface_pixels(*self)[(x as int, y as int)],
    {
        read_pixel(self, x, y)
    }

    /// Gives the pixel at `(x, y)` a colour and changes nothing else.
    pub fn put_pixel(&mut self, x: u32, y: u32, c: Color)
        requires
            (x as int) < surface_width(*old(self)),
            (y as int) < surface_height(*old(self)),
            addressable(surface_width(*old(self)), surface_height(*old(self))),
        ensures
            surface_width(*final(self)) == surface_width(*old(self)),
            surface_height(*final(self)) == surface_height(*old(self)),
            surface_pixels(*final(self)) == surface_pixels(*old(self)).insert(
                (x as int, y as int),
                c.channels(),
            ),
    {
        write_pixel(self, x, y, c)
    }
}

/// The pixels after each position of a list, in turn, took one colour.
pub open spec fn paint(
    pixels: Map<(int, int), (u8, u8, u8, u8)>,
    at: Seq<(int, int)>,
    c: Color,
) -> Map<(int, int), (u8, u8, u8, u8)>
    decreases at.len(),
{
    if at.len() == 0 {
        pixels
    } else {
        paint(pixels, at.drop_last(), c).insert(at.last(), c.channels())
    }
}

/// Every position of a list lies on a surface of the given measures.
pub open spec fn all_inside(at: Seq<(int, int)>, width: int, height: int) -> bool {
    forall|k: int| 0 <= k < at.len() ==> 0 <= (#[trigger] at[k]).0 < width && 0 <= at[k].1 < height
}

/// Gives every position of a list one colour, the first position first.
pub fn paint_all(
    img: &mut Surface,
    at: &Vec<(u32, u32)>,
    c: Color,
)
    requires
        addressable(surface_width(*old(img)), surface_height(*old(img))),
        all_inside(positions(at@), surface_width(*old(img)), surface_height(*old(img))),
    ensures
        surface_width(*final(img)) == surface_width(*old(img)),
        surface_height(*final(img)) == surface_height(*old(img)),
        surface_pixels(*final(img)) == paint(surface_pixels(*old(img)), positions(at@), c),
{
    let ghost before = surface_pixels(*img);
    let ghost width = surface_width(*img);
    let ghost height = surface_height(*img);
    let mut i: usize = 0;
    while i < at.len()
        invariant
            i <= at@.len(),
            surface_width(*img) == width,
            surface_height(*img) == height,
            addressable(width, height),
            all_inside(positions(at@), width, height),
            surface_pixels(*img) == paint(before, positions(at@).take(i as int), c),
        decreases at@.len() - i,
    {
        let p = at[i];
        assert(positions(at@)[i as int] == (p.0 as int, p.1 as int));
        img.put_pixel(p.0, p.1, c);
        assert(positions(at@).take(i + 1).drop_last() =~= positions(at@).take(i as int));
        i = i + 1;
    }
    assert(positions(at@).take(at@.len() as int) =~= positions(at@));
}

/// A list of pixel positions as the numbers they stand for.
pub open spec fn positions(at: Seq<(u32, u32)>) -> Seq<(int, int)> {
    Seq::new(at.len(), |k: int| (at[k].0 as int, at[k].1 as int))
}

} // verus!
