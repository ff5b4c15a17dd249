//! Links between nodes: their random generation, their text form, one link
//! to a line, and their drawing as a stepped line.

use vstd::prelude::*;
use crate::node::Node;
use crate::shape::Shape;
use crate::coordinate::gap;
use crate::surface::{Surface, addressable, all_inside, paint, paint_all, positions, surface_height,
    surface_pixels, surface_width};
use crate::tools::roll;
use crate::text::{COMMA, NEWLINE, append_text, decimal, find_sep, flag_of, flag_text, read_flag,
    same_text, sep_pos};

verus! {

/// Holds a connection between two nodes of one list.
pub struct NodeLink<'a, T: Shape> {
    pub from: &'a Node<T>,
    pub to: &'a Node<T>,
    /// Does the path go both ways?
    pub omnidirectional: bool,
}

impl<'a, T: Shape> PartialEq for NodeLink<'a, T> {
    /// Links are equal when they join nodes of the same identities, in the
    /// same direction, and carry the same flag.
    fn eq(&self, other: &NodeLink<'a, T>) -> (same: bool) {
        self.from.hash == other.from.hash && self.to.hash == other.to.hash && self.omnidirectional
            == other.omnidirectional
    }
}

impl<'a, T: Shape> vstd::std_specs::cmp::PartialEqSpecImpl for NodeLink<'a, T> {
    open spec fn obeys_eq_spec() -> bool {
        true
    }

    open spec fn eq_spec(&self, other: &NodeLink<'a, T>) -> bool {
        self.from.hash == other.from.hash && self.to.hash == other.to.hash && self.omnidirectional
            == other.omnidirectional
    }
}

/// A line names a node that the list does not hold, or is no link at all.
#[derive(Debug)]
pub struct LookupError {}

impl LookupError {
    /// What went wrong, in words.
    pub fn message(&self) -> (text: &'static str)
        ensures
            text@ == "link does not exist in node list"@,
    {
        "link does not exist in node list"
    }
}

/// The shortest line that is read as a link; shorter ones are passed over.
pub const SHORTEST_ROW: usize = 16;

/// The line a link is saved as, without the byte that ends it: both
/// identities in decimal and the flag's word, commas between them.
pub open spec fn row_text(from: u64, to: u64, flag: bool) -> Seq<u8> {
    decimal(from as nat) + seq![COMMA] + decimal(to as nat) + seq![COMMA]
        + flag_text(flag)
}

/// The identities of a list's nodes as text, in the list's order.
pub open spec fn ids_of<T: Shape>(list: Seq<Node<T>>) -> Seq<Seq<u8>> {
    Seq::new(list.len(), |k: int| list[k].id_text())
}

/// The three fields of a line: the text before the first comma, the text
/// between the first and the second, and the flag spelled from there to
/// the third comma or the line's end. A line with fewer than two commas or
/// another word for the flag has none.
pub open spec fn fields_of(row: Seq<u8>) -> Option<(Seq<u8>, Seq<u8>, bool)> {
    let a = sep_pos(row, COMMA);
    if a >= row.len() {
        None
    } else {
        let second = row.skip(a + 1);
        let b = sep_pos(second, COMMA);
        if b >= second.len() {
            None
        } else {
            let third = second.skip(b + 1);
            let c = sep_pos(third, COMMA);
            match flag_of(third.take(c)) {
                Some(flag) => Some((row.take(a), second.take(b), flag)),
                None => None,
            }
        }
    }
}

/// The link a line stands for against a list of nodes: the places of the
/// first node with the first field's identity and of the first node with
/// the second's, and the flag. There is none where the line has no fields
/// or the list lacks either identity.
pub open spec fn resolved<T: Shape>(row: Seq<u8>, list: Seq<Node<T>>) -> Option<(int, int, bool)> {
    match fields_of(row) {
        Some((from, to, flag)) => match (
            ids_of(list).index_of_first(from),
            ids_of(list).index_of_first(to),
        ) {
            (Some(a), Some(b)) => Some((a, b, flag)),
            _ => None,
        },
        None => None,
    }
}

/// A link joins the nodes at two places of a list and carries a flag.
pub open spec fn joins<T: Shape>(link: NodeLink<T>, list: Seq<Node<T>>, at: (int, int, bool)) -> bool {
    &&& 0 <= at.0 < list.len()
    &&& 0 <= at.1 < list.len()
    &&& *link.from == list[at.0]
    &&& *link.to == list[at.1]
    &&& link.omnidirectional == at.2
}

/// Each link of a list joins what the entry at its place says.
pub open spec fn all_join<T: Shape>(
    links: Seq<NodeLink<T>>,
    list: Seq<Node<T>>,
    at: Seq<(int, int, bool)>,
) -> bool {
    &&& links.len() == at.len()
    &&& forall|k: int| 0 <= k < links.len() ==> joins(#[trigger] links[k], list, at[k])
}

/// The links that a saved text stands for against a list of nodes: line by
/// line, lines under the shortest length passed over. There is none where
/// a line that counts stands for no link.
pub open spec fn loaded<T: Shape>(s: Seq<u8>, list: Seq<Node<T>>) -> Option<Seq<(int, int, bool)>>
    decreases s.len(),
{
    let end = sep_pos(s, NEWLINE);
    let row = s.take(end);
    let rest = if 0 <= end < s.len() {
        loaded(s.skip(end + 1), list)
    } else {
        Some(Seq::empty())
    };
    if row.len() >= SHORTEST_ROW {
        match (resolved(row, list), rest) {
            (Some(first), Some(others)) => Some(seq![first] + others),
            _ => None,
        }
    } else {
        rest
    }
}

/// One step of a coordinate toward its goal.
pub open spec fn step_toward(a: int, goal: int) -> int {
    if a < goal {
        a + 1
    } else if a > goal {
        a - 1
    } else {
        a
    }
}

/// The pixels a line visits from a start to a goal, the goal left out:
/// both axes step toward the goal at once until each has arrived.
pub open spec fn trail(x: int, y: int, to_x: int, to_y: int) -> Seq<(int, int)>
    decreases gap(x, to_x) + gap(y, to_y),
{
    if x == to_x && y == to_y {
        Seq::empty()
    } else {
        seq![(x, y)] + trail(step_toward(x, to_x), step_toward(y, to_y), to_x, to_y)
    }
}

/// Those of a list of pixels that are fully transparent, in their order.
pub open spec fn unoccupied(pixels: Map<(int, int), (u8, u8, u8, u8)>, at: Seq<(int, int)>) -> Seq<
    (int, int),
>
    decreases at.len(),
{
    if at.len() == 0 {
        Seq::empty()
    } else if pixels[at.last()].3 == 0 {
        unoccupied(pixels, at.drop_last()).push(at.last())
    } else {
        unoccupied(pixels, at.drop_last())
    }
}

/// Of a hundred equally likely draws, the thirty that make a link.
pub open spec fn draw_links(draw: u32) -> bool {
    draw < 30
}

/// Whether a draw from `[0, 100)` makes a link.
pub fn wants_link(draw: u32) -> (yes: bool)
    ensures
        yes == draw_links(draw),
{
    draw < 30
}

/// The place a link from place `i` leads to after an offset was drawn:
/// that many places on, but no further than the last place of the list.
pub open spec fn target_of(i: int, offset: int, len: int) -> int {
    if i + offset >= len {
        len - 1
    } else {
        i + offset
    }
}

/// Computes the place a link leads to.
pub fn link_target(i: usize, offset: usize, len: usize) -> (t: usize)
    requires
        i < len,
    ensures
        t == target_of(i as int, offset as int, len as int),
        i <= t < len,
{
    if offset >= len - i {
        len - 1
    } else {
        i + offset
    }
}

/// What holds of the places that links are made between in a list of `n`
/// nodes, whatever was drawn. With `half` for half of `n`: the first `half`
/// links start at the even places `0, 2, ..` in turn, the link from place
/// `2k` leading to one of the places `k .. k + half`; each later link starts
/// at a place but the last and leads to its own place or less than `half`
/// places on, and the later links start at ever higher places. Every link
/// goes both ways, and a list of fewer than two nodes has none.
pub open spec fn planned(at: Seq<(int, int, bool)>, n: int) -> bool {
    let half = n / 2;
    &&& n < 2 ==> at.len() == 0
    &&& n >= 2 ==> half <= at.len() <= half + n - 1
    &&& forall|k: int|
        0 <= k < half && k < at.len() ==> {
            &&& (#[trigger] at[k]).0 == 2 * k
            &&& k <= at[k].1 < k + half
            &&& at[k].2
        }
    &&& forall|k: int|
        half <= k < at.len() ==> {
            &&& 0 <= (#[trigger] at[k]).0 < n - 1
            &&& at[k].0 <= at[k].1 < n
            &&& at[k].1 < at[k].0 + half
            &&& at[k].2
        }
    &&& forall|j: int, k: int| half <= j < k < at.len() ==> (#[trigger] at[j]).0 < (#[trigger] at[k]).0
}

/// The links made for a list join places of it that are planned as
/// `planned` says.
pub open spec fn linked<T: Shape>(links: Seq<NodeLink<T>>, list: Seq<Node<T>>) -> bool {
    exists|at: Seq<(int, int, bool)>|
        #[trigger] all_join(links, list, at) && planned(at, list.len() as int)
}

/// Finds the first node of a list whose identity reads as a stretch of a
/// text.
fn find_node<T: Shape>(list: &[Node<T>], s: &[u8], start: usize, end: usize) -> (at: Option<usize>)
    requires
        start <= end <= s@.len(),
    ensures
        match ids_of(list@).index_of_first(s@.subrange(start as int, end as int)) {
            Some(k) => at.is_some() && at.unwrap() as int == k && 0 <= k < list@.len(),
            None => at.is_none(),
        },
{
    let ghost ids = ids_of(list@);
    let ghost id = s@.subrange(start as int, end as int);
    let mut k: usize = 0;
    while k < list.len()
        invariant
            k <= list@.len(),
            ids == ids_of(list@),
            id == s@.subrange(start as int, end as int),
            start <= end <= s@.len(),
            forall|j: int| 0 <= j < k ==> ids[j] != id,
        decreases list@.len() - k,
    {
        let text = list[k].gen_id();
        if same_text(s, start, end, &text) {
            proof {
                assert(ids[k as int] == id);
                assert(ids.contains(id));
                ids.index_of_first_ensures(id);
            }
            return Some(k);
        }
        k = k + 1;
    }
    proof {
        assert(!ids.contains(id));
        ids.index_of_first_ensures(id);
    }
    None
}

impl<'a, T: Shape> NodeLink<'a, T> {
    /// Constructs a link between two nodes.
    pub fn new(from: &'a Node<T>, to: &'a Node<T>, omnidirectional: bool) -> (link: NodeLink<'a, T>)
        ensures
            link.from == from,
            link.to == to,
            link.omnidirectional == omnidirectional,
    {
        NodeLink { from, to, omnidirectional }
    }

    /// The pixel a link's line starts at: the first node's position, moved
    /// by the offsets and by half the size nodes are drawn at.
    pub open spec fn start(&self, x_offset: i16, y_offset: i16, size: u32) -> (int, int) {
        (self.from.geo.x + x_offset + size / 2, self.from.geo.y + y_offset + size / 2)
    }

    /// The pixel a link's line leads to, found as its start is.
    pub open spec fn goal(&self, x_offset: i16, y_offset: i16, size: u32) -> (int, int) {
        (self.to.geo.x + x_offset + size / 2, self.to.geo.y + y_offset + size / 2)
    }

    /// A link can be drawn on a surface of the given measures: its start
    /// and its goal lie on the surface.
    pub open spec fn fits(&self, width: int, height: int, x_offset: i16, y_offset: i16, size: u32) -> bool {
        let s = self.start(x_offset, y_offset, size);
        let g = self.goal(x_offset, y_offset, size);
        &&& addressable(width, height)
        &&& 0 <= s.0 < width && 0 <= s.1 < height
        &&& 0 <= g.0 < width && 0 <= g.1 < height
    }

    /// Whether a link can be drawn on a surface.
    pub fn can_draw(&self, image: &Surface, x_offset: i16, y_offset: i16, size: u32) -> (ok: bool)
        ensures
            ok == self.fits(
                surface_width(*image),
                surface_height(*image),
                x_offset,
                y_offset,
                size,
            ),
    {
        if !image.is_addressable() {
            return false;
        }
        let w: i64 = image.width() as i64;
        let h: i64 = image.height() as i64;
        let half: i64 = (size / 2) as i64;
        let from_x: i64 = self.from.geo.x as i64 + x_offset as i64 + half;
        let from_y: i64 = self.from.geo.y as i64 + y_offset as i64 + half;
        let to_x: i64 = self.to.geo.x as i64 + x_offset as i64 + half;
        let to_y: i64 = self.to.geo.y as i64 + y_offset as i64 + half;
        0 <= from_x && from_x < w && 0 <= from_y && from_y < h && 0 <= to_x && to_x < w && 0
            <= to_y && to_y < h
    }

    /// Draws the link as a stepped line from its first node toward its
    /// second: every pixel on the way that was fully transparent takes the
    /// first node's colour, and no other pixel changes.
    pub fn draw(&self, image: &mut Surface, x_offset: i16, y_offset: i16, size: u32)
        requires
            self.fits(
                surface_width(*old(image)),
                surface_height(*old(image)),
                x_offset,
                y_offset,
                size,
            ),
        ensures
            surface_width(*final(image)) == surface_width(*old(image)),
            surface_height(*final(image)) == surface_height(*old(image)),
            surface_pixels(*final(image)) == paint(
                surface_pixels(*old(image)),
                unoccupied(
                    surface_pixels(*old(image)),
                    trail(
                        self.start(x_offset, y_offset, size).0,
                        self.start(x_offset, y_offset, size).1,
                        self.goal(x_offset, y_offset, size).0,
                        self.goal(x_offset, y_offset, size).1,
                    ),
                ),
                self.from.color,
            ),
    {
        let ghost before = surface_pixels(*image);
        let ghost width = surface_width(*image);
        let ghost height = surface_height(*image);
        assert(width <= u32::MAX && height <= u32::MAX) by (nonlinear_arith)
            requires
                width * height <= u32::MAX,
                width >= 1,
                height >= 1,
        ;
        let half: i64 = (size / 2) as i64;
        let from_x: u32 = (self.from.geo.x as i64 + x_offset as i64 + half) as u32;
        let from_y: u32 = (self.from.geo.y as i64 + y_offset as i64 + half) as u32;
        let to_x: u32 = (self.to.geo.x as i64 + x_offset as i64 + half) as u32;
        let to_y: u32 = (self.to.geo.y as i64 + y_offset as i64 + half) as u32;
        let mut x: u32 = from_x;
        let mut y: u32 = from_y;
        let mut pos: Vec<(u32, u32)> = Vec::new();
        let ghost mut walked: Seq<(int, int)> = Seq::empty();
        assert(walked + trail(x as int, y as int, to_x as int, to_y as int) =~= trail(
            from_x as int,
            from_y as int,
            to_x as int,
            to_y as int,
        ));
        assert(positions(pos@) =~= unoccupied(before, walked));
        while x != to_x || y != to_y
            invariant
                surface_pixels(*image) == before,
                surface_width(*image) == width,
                surface_height(*image) == height,
                addressable(width, height),
                x < width,
                to_x < width,
                y < height,
                to_y < height,
                walked + trail(x as int, y as int, to_x as int, to_y as int) == trail(
                    from_x as int,
                    from_y as int,
                    to_x as int,
                    to_y as int,
                ),
                positions(pos@) == unoccupied(before, walked),
                all_inside(positions(pos@), width, height),
            decreases gap(x as int, to_x as int) + gap(y as int, to_y as int),
        {
            let pixel = image.get_pixel(x, y);
            let ghost here = (x as int, y as int);
            let ghost further = walked.push(here);
            proof {
                assert(further.drop_last() =~= walked);
                assert(further.last() == here);
                assert(further + trail(
                    step_toward(x as int, to_x as int),
                    step_toward(y as int, to_y as int),
                    to_x as int,
                    to_y as int,
                ) =~= walked + trail(x as int, y as int, to_x as int, to_y as int));
            }
            if pixel.a == 0 {
                let ghost old_pos = positions(pos@);
                pos.push((x, y));
                assert(positions(pos@) =~= old_pos.push(here));
            }
            proof {
                walked = further;
            }
            if x < to_x {
                x = x + 1;
            } else if x > to_x {
                x = x - 1;
            }
            if y < to_y {
                y = y + 1;
            } else if y > to_y {
                y = y - 1;
            }
        }
        assert(walked + Seq::<(int, int)>::empty() =~= walked);
        paint_all(image, &pos, self.from.color);
    }

    /// Makes links at random between the nodes of a list: one from every
    /// second node, then one more from about three nodes in ten. The last
    /// node starts none.
    pub fn link(list: &'a [Node<T>]) -> (links: Vec<NodeLink<'a, T>>)
        requires
            list@.len() / 2 <= u32::MAX,
        ensures
            linked(links@, list@),
    {
        let mut links: Vec<NodeLink<'a, T>> = Vec::new();
        let ghost mut at: Seq<(int, int, bool)> = Seq::empty();
        let range: usize = list.len();
        let half: usize = range / 2;
        let mut i: usize = 0;
        while i < half
            invariant
                range == list@.len(),
                half == range / 2,
                half <= u32::MAX,
                i <= half,
                at.len() == i,
                all_join(links@, list@, at),
                forall|k: int|
                    0 <= k < i ==> {
                        &&& (#[trigger] at[k]).0 == 2 * k
                        &&& k <= at[k].1 < k + half
                        &&& at[k].2
                    },
            decreases half - i,
        {
            let offset: usize = roll(0, half as u32) as usize;
            let t: usize = link_target(i, offset, range);
            let link = NodeLink::new(&list[i * 2], &list[t], true);
            links.push(link);
            proof {
                at = at.push((2 * i as int, t as int, true));
            }
            i = i + 1;
        }
        let mut i: usize = 0;
        while i < range
            invariant
                range == list@.len(),
                half == range / 2,
                half <= u32::MAX,
                i <= range,
                all_join(links@, list@, at),
                range < 2 ==> at.len() == 0,
                range >= 2 ==> half <= at.len() <= half + i,
                range >= 2 && i == range ==> at.len() <= half + range - 1,
                forall|k: int|
                    0 <= k < half && k < at.len() ==> {
                        &&& (#[trigger] at[k]).0 == 2 * k
                        &&& k <= at[k].1 < k + half
                        &&& at[k].2
                    },
                forall|k: int|
                    half <= k < at.len() ==> {
                        &&& 0 <= (#[trigger] at[k]).0 < i
                        &&& at[k].0 < range - 1
                        &&& at[k].0 <= at[k].1 < range
                        &&& at[k].1 < at[k].0 + half
                        &&& at[k].2
                    },
                forall|j: int, k: int|
                    half <= j < k < at.len() ==> (#[trigger] at[j]).0 < (#[trigger] at[k]).0,
            decreases range - i,
        {
            if i == range - 1 {
                i = range;
            } else {
                if wants_link(roll(0, 100)) {
                    let offset: usize = roll(0, half as u32) as usize;
                    let t: usize = link_target(i, offset, range);
                    let link = NodeLink::new(&list[i], &list[t], true);
                    links.push(link);
                    proof {
                        at = at.push((i as int, t as int, true));
                    }
                }
                i = i + 1;
            }
        }
        assert(planned(at, list@.len() as int));
        links
    }

    /// Appends the link's line to a saved text and keeps what the text held.
    pub fn save(&self, out: &mut Vec<u8>)
        ensures
            final(out)@ == old(out)@ + row_text(
                self.from.hash,
                self.to.hash,
                self.omnidirectional,
            ) + seq![NEWLINE],
    {
        let ghost before = out@;
        let from = self.from.gen_id();
        let to = self.to.gen_id();
        append_text(out, &from);
        out.push(COMMA);
        append_text(out, &to);
        out.push(COMMA);
        if self.omnidirectional {
            out.push(116u8);
            out.push(114u8);
            out.push(117u8);
            out.push(101u8);
        } else {
            out.push(102u8);
            out.push(97u8);
            out.push(108u8);
            out.push(115u8);
            out.push(101u8);
        }
        out.push(NEWLINE);
        assert(out@ =~= before + row_text(self.from.hash, self.to.hash, self.omnidirectional)
            + seq![NEWLINE]);
    }

    /// Reads the link that the stretch of a text from `lo` to `hi` stands for.
    fn parse_range(s: &[u8], lo: usize, hi: usize, list: &'a [Node<T>]) -> (r: Result<
        NodeLink<'a, T>,
        LookupError,
    >)
        requires
            lo <= hi <= s@.len(),
        ensures
            match resolved(s@.subrange(lo as int, hi as int), list@) {
                Some(at) => r.is_ok() && joins(r.unwrap(), list@, at),
                None => r.is_err(),
            },
    {
        let ghost row = s@.subrange(lo as int, hi as int);
        let a = find_sep(s, lo, hi, COMMA);
        if a >= hi {
            return Err(LookupError {  });
        }
        let ghost second = row.skip(a - lo + 1);
        assert(second =~= s@.subrange(a + 1, hi as int));
        let b = find_sep(s, a + 1, hi, COMMA);
        if b >= hi {
            return Err(LookupError {  });
        }
        let ghost third = second.skip(b - a);
        assert(third =~= s@.subrange(b + 1, hi as int));
        let c = find_sep(s, b + 1, hi, COMMA);
        assert(third.take(c - b - 1) =~= s@.subrange(b + 1, c as int));
        assert(row.take(a - lo) =~= s@.subrange(lo as int, a as int));
        assert(second.take(b - a - 1) =~= s@.subrange(a + 1, b as int));
        let flag = match read_flag(s, b + 1, c) {
            Some(flag) => flag,
            None => {
                return Err(LookupError {  });
            },
        };
        let from = match find_node(list, s, lo, a) {
            Some(k) => k,
            None => {
                return Err(LookupError {  });
            },
        };
        let to = match find_node(list, s, a + 1, b) {
            Some(k) => k,
            None => {
                return Err(LookupError {  });
            },
        };
        Ok(NodeLink { from: &list[from], to: &list[to], omnidirectional: flag })
    }

    /// Reads one line as a link between nodes of the list: the first node
    /// with the first field's identity and the first with the second's. A
    /// line that is no link, or names a node the list lacks, is an error.
    pub fn parse(line: &[u8], list: &'a [Node<T>]) -> (r: Result<NodeLink<'a, T>, LookupError>)
        ensures
            match resolved(line@, list@) {
                Some(at) => r.is_ok() && joins(r.unwrap(), list@, at),
                None => r.is_err(),
            },
    {
        assert(line@.subrange(0, line@.len() as int) =~= line@);
        Self::parse_range(line, 0, line.len(), list)
    }

    /// Reads a saved text line by line as links between nodes of the list.
    /// Lines shorter than the shortest link are passed over; any other line
    /// that is no link against the list makes the whole an error.
    pub fn load(contents: &[u8], list: &'a [Node<T>]) -> (r: Result<Vec<NodeLink<'a, T>>, LookupError>)
        ensures
            match loaded(contents@, list@) {
                Some(at) => r.is_ok() && all_join(r.unwrap()@, list@, at),
                None => r.is_err(),
            },
    {
        let mut links: Vec<NodeLink<'a, T>> = Vec::new();
        let ghost mut acc: Seq<(int, int, bool)> = Seq::empty();
        let mut start: usize = 0;
        let mut done = false;
        assert(contents@.skip(0) =~= contents@);
        while !done
            invariant
                start <= contents@.len(),
                all_join(links@, list@, acc),
                done ==> loaded(contents@, list@) == Some(acc),
                !done ==> match loaded(contents@.skip(start as int), list@) {
                    Some(others) => loaded(contents@, list@) == Some(acc + others),
                    None => loaded(contents@, list@).is_none(),
                },
            decreases contents@.len() - start + (if done { 0int } else { 1int }),
        {
            let ghost tail = contents@.skip(start as int);
            assert(tail =~= contents@.subrange(start as int, contents@.len() as int));
            let end = find_sep(contents, start, contents.len(), NEWLINE);
            assert(tail.take(end - start) =~= contents@.subrange(start as int, end as int));
            if end < contents.len() {
                assert(tail.skip(end - start + 1) =~= contents@.skip(end + 1));
            }
            let ghost rest = if end < contents@.len() {
                loaded(contents@.skip(end + 1), list@)
            } else {
                Some(Seq::empty())
            };
            if end - start >= SHORTEST_ROW {
                match Self::parse_range(contents, start, end, list) {
                    Ok(link) => {
                        let ghost first = resolved(
                            contents@.subrange(start as int, end as int),
                            list@,
                        ).unwrap();
                        links.push(link);
                        proof {
                            if rest.is_some() {
                                assert(acc + (seq![first] + rest.unwrap()) =~= acc.push(first)
                                    + rest.unwrap());
                            }
                            acc = acc.push(first);
                        }
                    },
                    Err(e) => {
                        return Err(e);
                    },
                }
            }
            if end >= contents.len() {
                proof {
                    assert(acc + Seq::<(int, int, bool)>::empty() =~= acc);
                }
                done = true;
            } else {
                start = end + 1;
            }
        }
        Ok(links)
    }
}

} // verus!
