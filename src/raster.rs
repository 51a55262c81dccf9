use vstd::prelude::*;
use crate::color::{Color, lerp_spec};
use crate::geometry::{Vector2, within_line, dist_to_line_below, lemma_within_line_in_box};

verus! {

/// What a pixel buffer holds: its size in pixels and its bytes, four per
/// pixel, row by row.
pub struct Raster {
    pub width: nat,
    pub height: nat,
    pub bytes: Seq<u8>,
}

impl Raster {
    /// The bytes hold exactly `width * height` pixels, and the whole buffer
    /// fits in the `i32` size that a shared-memory pool is created with.
    pub open spec fn wf(&self) -> bool {
        &&& self.bytes.len() == self.width * self.height * 4
        &&& self.width * self.height * 4 <= i32::MAX
    }

    pub open spec fn in_grid(&self, x: int, y: int) -> bool {
        0 <= x < self.width && 0 <= y < self.height
    }

    /// Offset of the first byte of pixel `(x, y)`.
    pub open spec fn index_of(&self, x: int, y: int) -> int {
        (y * self.width + x) * 4
    }

    /// The colour stored at pixel `(x, y)`.
    pub open spec fn color_at(&self, x: int, y: int) -> Color {
        let i = self.index_of(x, y);
        Color { r: self.bytes[i], g: self.bytes[i + 1], b: self.bytes[i + 2], a: self.bytes[i + 3] }
    }

    /// Same size as `other`.
    pub open spec fn same_size(&self, other: Raster) -> bool {
        self.width == other.width && self.height == other.height
    }
}

/// Whether `(x, y)` lies in the rectangle `[pos, pos + size)`.
pub open spec fn in_rect(pos: Vector2, size: Vector2, x: int, y: int) -> bool {
    pos.x <= x < pos.x + size.x && pos.y <= y < pos.y + size.y
}

/// Whether `(x, y)` lies in the box `[min, max)`.
pub open spec fn in_box(min: Vector2, max: Vector2, x: int, y: int) -> bool {
    min.x <= x < max.x && min.y <= y < max.y
}

pub open spec fn min_int(a: int, b: int) -> int {
    if a <= b { a } else { b }
}

pub open spec fn max_int(a: int, b: int) -> int {
    if a >= b { a } else { b }
}

/// Whether `(x, y)` lies in the box around the segment `ab` widened by
/// `t` on every side.
pub open spec fn in_line_box(a: Vector2, b: Vector2, t: int, x: int, y: int) -> bool {
    &&& min_int(a.x as int, b.x as int) - t <= x < max_int(a.x as int, b.x as int) + t
    &&& min_int(a.y as int, b.y as int) - t <= y < max_int(a.y as int, b.y as int) + t
}

/// Whether the box `[min_x, max_x) x [min_y, max_y)` shares a pixel with
/// the grid of `r`.
pub open spec fn box_meets_grid(r: Raster, min_x: int, min_y: int, max_x: int, max_y: int) -> bool {
    &&& max_int(min_x, 0) < min_int(max_x, r.width as int)
    &&& max_int(min_y, 0) < min_int(max_y, r.height as int)
}

/// Whether no glyph's box shares a pixel with the grid of `r`.
pub open spec fn glyphs_off_grid(r: Raster, glyphs: Seq<Glyph>) -> bool {
    forall|i: int| 0 <= i < glyphs.len() ==> !box_meets_grid(
        r,
        (#[trigger] glyphs[i]).min_x as int,
        glyphs[i].min_y as int,
        glyphs[i].min_x + glyphs[i].width,
        glyphs[i].min_y + glyphs[i].height,
    )
}

proof fn lemma_grid_index(w: int, h: int, x: int, y: int)
    requires
        0 <= x < w,
        0 <= y < h,
    ensures
        0 <= y * w + x,
        y * w + x + 1 <= w * h,
{
    assert(0 <= y * w + x && y * w + x + 1 <= w * h) by (nonlinear_arith)
        requires 0 <= x < w, 0 <= y < h;
}

proof fn lemma_grid_index_unique(w: int, x: int, y: int, x2: int, y2: int)
    requires
        0 <= x < w,
        0 <= x2 < w,
        0 <= y,
        0 <= y2,
        y * w + x == y2 * w + x2,
    ensures
        x == x2,
        y == y2,
{
    if y < y2 {
        assert(y * w + x < y2 * w + x2) by (nonlinear_arith)
            requires 0 <= x < w, 0 <= x2, y < y2;
    } else if y2 < y {
        assert(y2 * w + x2 < y * w + x) by (nonlinear_arith)
            requires 0 <= x2 < w, 0 <= x, y2 < y;
    }
}

/// A laid-out glyph: its pixel box at `(min_x, min_y)` of `width * height`
/// pixels, the coverage of each pixel of the box row by row (255 is full),
/// and the colour it is drawn in.
pub struct Glyph {
    pub min_x: i32,
    pub min_y: i32,
    pub width: u32,
    pub height: u32,
    pub coverage: Vec<u8>,
    pub color: Color,
}

impl Glyph {
    pub open spec fn wf(&self) -> bool {
        self.coverage@.len() == self.width * self.height
    }

    /// Whether pixel `(x, y)` of the buffer lies in the glyph's box.
    pub open spec fn covers(&self, x: int, y: int) -> bool {
        &&& self.min_x <= x < self.min_x + self.width
        &&& self.min_y <= y < self.min_y + self.height
    }

    /// The glyph's coverage of pixel `(x, y)` of the buffer.
    pub open spec fn coverage_at(&self, x: int, y: int) -> u8 {
        self.coverage@[(y - self.min_y) * self.width + (x - self.min_x)]
    }
}

/// The colour of pixel `(x, y)` after the glyphs are drawn in order over
/// `base`: the last glyph whose box holds the pixel blends its colour over
/// `bg` at its coverage there; a pixel that no glyph holds keeps `base`.
pub open spec fn text_color(base: Color, glyphs: Seq<Glyph>, bg: Color, x: int, y: int) -> Color
    decreases glyphs.len(),
{
    if glyphs.len() == 0 {
        base
    } else {
        let g = glyphs.last();
        if g.covers(x, y) {
            lerp_spec(g.color, bg, g.coverage_at(x, y))
        } else {
            text_color(base, glyphs.drop_last(), bg, x, y)
        }
    }
}

/// A BGRA/ARGB raster of `width * height` pixels, four bytes each.
pub struct PixelBuffer {
    width: u32,
    height: u32,
    bytes: Vec<u8>,
}

impl View for PixelBuffer {
    type V = Raster;

    closed spec fn view(&self) -> Raster {
        Raster { width: self.width as nat, height: self.height as nat, bytes: self.bytes@ }
    }
}

impl PixelBuffer {
    /// A buffer of `width * height` pixels, every byte zero. The size must
    /// fit the `i32` length of a shared-memory pool.
    pub fn new(width: u32, height: u32) -> (r: Self)
        requires
            width * height * 4 <= i32::MAX,
        ensures
            r@.wf(),
            r@.width == width,
            r@.height == height,
            forall|i: int| 0 <= i < r@.bytes.len() ==> r@.bytes[i] == 0,
    {
        assert(width * height <= i32::MAX) by (nonlinear_arith)
            requires width * height * 4 <= i32::MAX;
        let len = (width as usize) * (height as usize) * 4;
        let bytes = vec![0u8; len];
        PixelBuffer { width, height, bytes }
    }

    pub fn width(&self) -> (r: u32)
        ensures
            r == self@.width,
    {
        self.width
    }

    pub fn height(&self) -> (r: u32)
        ensures
            r == self@.height,
    {
        self.height
    }

    /// The raw bytes, as they are handed to the display server.
    pub fn bytes(&self) -> (r: &Vec<u8>)
        ensures
            r@ == self@.bytes,
    {
        &self.bytes
    }

    /// The colour at `(x, y)`, or `None` outside the grid.
    pub fn pixel(&self, x: u32, y: u32) -> (r: Option<Color>)
        requires
            self@.wf(),
        ensures
            r == if self@.in_grid(x as int, y as int) {
                Some(self@.color_at(x as int, y as int))
            } else {
                None::<Color>
            },
    {
        if x >= self.width || y >= self.height {
            return None;
        }
        proof {
            lemma_grid_index(self.width as int, self.height as int, x as int, y as int);
        }
        let i = ((y as usize) * (self.width as usize) + (x as usize)) * 4;
        Some(Color { r: self.bytes[i], g: self.bytes[i + 1], b: self.bytes[i + 2], a: self.bytes[i + 3] })
    }

    fn put(&mut self, x: u32, y: u32, c: Color)
        requires
            old(self)@.wf(),
            old(self)@.in_grid(x as int, y as int),
        ensures
            final(self)@.wf(),
            final(self)@.same_size(old(self)@),
            forall|px: int, py: int| #[trigger] final(self)@.in_grid(px, py)
                ==> final(self)@.color_at(px, py) == if px == x && py == y {
                    c
                } else {
                    old(self)@.color_at(px, py)
                },
    {
        let ghost w = self.width as int;
        proof {
            lemma_grid_index(w, self.height as int, x as int, y as int);
        }
        let i = ((y as usize) * (self.width as usize) + (x as usize)) * 4;
        self.bytes.set(i, c.r);
        self.bytes.set(i + 1, c.g);
        self.bytes.set(i + 2, c.b);
        self.bytes.set(i + 3, c.a);
        assert forall|px: int, py: int| #[trigger] self@.in_grid(px, py) implies self@.color_at(px, py)
            == if px == x && py == y { c } else { old(self)@.color_at(px, py) } by {
            lemma_grid_index(w, self.height as int, px, py);
            if !(px == x && py == y) {
                if py * w + px == y * w + x {
                    lemma_grid_index_unique(w, px, py, x as int, y as int);
                }
            }
        }
    }

    /// Writes `c` at `(x, y)`; does nothing where `(x, y)` is off the grid.
    pub fn write_pixel(&mut self, x: i64, y: i64, c: Color)
        requires
            old(self)@.wf(),
        ensures
            !old(self)@.in_grid(x as int, y as int) ==> final(self)@ == old(self)@,
            final(self)@.wf(),
            final(self)@.same_size(old(self)@),
            forall|px: int, py: int| #[trigger] final(self)@.in_grid(px, py)
                ==> final(self)@.color_at(px, py) == if px == x && py == y {
                    c
                } else {
                    old(self)@.color_at(px, py)
                },
    {
        if 0 <= x && x < self.width as i64 && 0 <= y && y < self.height as i64 {
            self.put(x as u32, y as u32, c);
        }
    }

    /// Fills the pixels of `[pos, pos + size)` that lie on the grid with
    /// `color`, without blending; every other pixel keeps its colour.
    pub fn draw_rect(&mut self, color: Color, pos: Vector2, size: Vector2)
        requires
            old(self)@.wf(),
        ensures
            final(self)@.wf(),
            final(self)@.same_size(old(self)@),
            forall|px: int, py: int| #[trigger] final(self)@.in_grid(px, py)
                ==> final(self)@.color_at(px, py) == if in_rect(pos, size, px, py) {
                    color
                } else {
                    old(self)@.color_at(px, py)
                },
            !box_meets_grid(old(self)@, pos.x as int, pos.y as int, pos.x + size.x, pos.y + size.y)
                ==> final(self)@ == old(self)@,
    {
        let ghost before = self@;
        let ghost meets = box_meets_grid(before, pos.x as int, pos.y as int, pos.x + size.x, pos.y + size.y);
        let x0: i64 = if pos.x < 0 { 0 } else { pos.x as i64 };
        let y0: i64 = if pos.y < 0 { 0 } else { pos.y as i64 };
        let xe = pos.x as i64 + size.x as i64;
        let ye = pos.y as i64 + size.y as i64;
        let x1: i64 = if xe < self.width as i64 { xe } else { self.width as i64 };
        let y1: i64 = if ye < self.height as i64 { ye } else { self.height as i64 };
        let mut x = x0;
        while x < x1
            invariant
                self@.wf(),
                self@.same_size(before),
                0 <= x0 <= x,
                x1 <= self@.width,
                x0 == if pos.x < 0 { 0 } else { pos.x as int },
                y0 == if pos.y < 0 { 0 } else { pos.y as int },
                x1 == min_int(pos.x + size.x, self@.width as int),
                y1 == min_int(pos.y + size.y, self@.height as int),
                meets == box_meets_grid(before, pos.x as int, pos.y as int, pos.x + size.x, pos.y + size.y),
                !meets ==> self@ == before,
                forall|px: int, py: int| #[trigger] self@.in_grid(px, py)
                    ==> self@.color_at(px, py) == if in_rect(pos, size, px, py) && px < x {
                        color
                    } else {
                        before.color_at(px, py)
                    },
            decreases x1 - x,
        {
            let mut y = y0;
            while y < y1
                invariant
                    self@.wf(),
                    self@.same_size(before),
                    0 <= x0 <= x < x1,
                    0 <= y0 <= y,
                    x1 <= self@.width,
                    y1 <= self@.height,
                    x0 == if pos.x < 0 { 0 } else { pos.x as int },
                    y0 == if pos.y < 0 { 0 } else { pos.y as int },
                    x1 == min_int(pos.x + size.x, self@.width as int),
                    y1 == min_int(pos.y + size.y, self@.height as int),
                    meets == box_meets_grid(before, pos.x as int, pos.y as int, pos.x + size.x, pos.y + size.y),
                    !meets ==> self@ == before,
                    forall|px: int, py: int| #[trigger] self@.in_grid(px, py)
                        ==> self@.color_at(px, py) == if in_rect(pos, size, px, py) && (px < x
                            || (px == x && py < y)) {
                            color
                        } else {
                            before.color_at(px, py)
                        },
                decreases y1 - y,
            {
                let ghost mid = self@;
                self.put(x as u32, y as u32, color);
                assert(in_rect(pos, size, x as int, y as int));
                assert forall|px: int, py: int| #[trigger] self@.in_grid(px, py)
                    implies self@.color_at(px, py) == if in_rect(pos, size, px, py) && (px < x
                        || (px == x && py < y + 1)) {
                        color
                    } else {
                        before.color_at(px, py)
                    } by {
                    assert(mid.in_grid(px, py));
                }
                y = y + 1;
            }
            x = x + 1;
        }
    }

    /// For every pixel of the box `[min, max)` that lies on the grid, asks
    /// `predicate` about the pixel and writes `color` there when it answers
    /// `true`; every other pixel keeps its colour.
    pub fn draw_where<F: Fn(Vector2) -> bool>(
        &mut self,
        color: Color,
        predicate: F,
        min: Vector2,
        max: Vector2,
    )
        requires
            old(self)@.wf(),
            forall|v: Vector2| #[trigger] predicate.requires((v,)),
        ensures
            final(self)@.wf(),
            final(self)@.same_size(old(self)@),
            forall|px: int, py: int| #[trigger] final(self)@.in_grid(px, py)
                ==> if in_box(min, max, px, py) {
                    ||| final(self)@.color_at(px, py) == color
                        && predicate.ensures((Vector2 { x: px as i32, y: py as i32 },), true)
                    ||| final(self)@.color_at(px, py) == old(self)@.color_at(px, py)
                        && predicate.ensures((Vector2 { x: px as i32, y: py as i32 },), false)
                } else {
                    final(self)@.color_at(px, py) == old(self)@.color_at(px, py)
                },
            !box_meets_grid(old(self)@, min.x as int, min.y as int, max.x as int, max.y as int)
                ==> final(self)@ == old(self)@,
    {
        let ghost before = self@;
        let ghost meets = box_meets_grid(before, min.x as int, min.y as int, max.x as int, max.y as int);
        let x0: i64 = if min.x < 0 { 0 } else { min.x as i64 };
        let y0: i64 = if min.y < 0 { 0 } else { min.y as i64 };
        let x1: i64 = if (max.x as i64) < self.width as i64 { max.x as i64 } else { self.width as i64 };
        let y1: i64 = if (max.y as i64) < self.height as i64 { max.y as i64 } else { self.height as i64 };
        let mut x = x0;
        while x < x1
            invariant
                self@.wf(),
                self@.same_size(before),
                forall|v: Vector2| #[trigger] predicate.requires((v,)),
                0 <= x0 <= x,
                x1 <= self@.width,
                x0 == max_int(min.x as int, 0),
                y0 == max_int(min.y as int, 0),
                x1 == min_int(max.x as int, self@.width as int),
                y1 == min_int(max.y as int, self@.height as int),
                meets == box_meets_grid(before, min.x as int, min.y as int, max.x as int, max.y as int),
                !meets ==> self@ == before,
                forall|px: int, py: int| #[trigger] self@.in_grid(px, py)
                    ==> if in_box(min, max, px, py) && px < x {
                        ||| self@.color_at(px, py) == color
                            && predicate.ensures((Vector2 { x: px as i32, y: py as i32 },), true)
                        ||| self@.color_at(px, py) == before.color_at(px, py)
                            && predicate.ensures((Vector2 { x: px as i32, y: py as i32 },), false)
                    } else {
                        self@.color_at(px, py) == before.color_at(px, py)
                    },
            decreases x1 - x,
        {
            let mut y = y0;
            while y < y1
                invariant
                    self@.wf(),
                    self@.same_size(before),
                    forall|v: Vector2| #[trigger] predicate.requires((v,)),
                    0 <= x0 <= x < x1,
                    0 <= y0 <= y,
                    x1 <= self@.width,
                    y1 <= self@.height,
                    x0 == max_int(min.x as int, 0),
                    y0 == max_int(min.y as int, 0),
                    x1 == min_int(max.x as int, self@.width as int),
                    y1 == min_int(max.y as int, self@.height as int),
                    meets == box_meets_grid(before, min.x as int, min.y as int, max.x as int, max.y as int),
                    !meets ==> self@ == before,
                    forall|px: int, py: int| #[trigger] self@.in_grid(px, py)
                        ==> if in_box(min, max, px, py) && (px < x || (px == x && py < y)) {
                            ||| self@.color_at(px, py) == color
                                && predicate.ensures((Vector2 { x: px as i32, y: py as i32 },), true)
                            ||| self@.color_at(px, py) == before.color_at(px, py)
                                && predicate.ensures((Vector2 { x: px as i32, y: py as i32 },), false)
                        } else {
                            self@.color_at(px, py) == before.color_at(px, py)
                        },
                decreases y1 - y,
            {
                assert(x < i32::MAX && y < i32::MAX) by (nonlinear_arith)
                    requires
                        0 <= x < self@.width,
                        0 <= y < self@.height,
                        self@.width * self@.height * 4 <= i32::MAX;
                let ghost mid = self@;
                let v = Vector2 { x: x as i32, y: y as i32 };
                let hit = predicate(v);
                if hit {
                    self.put(x as u32, y as u32, color);
                }
                assert(in_box(min, max, x as int, y as int));
                assert forall|px: int, py: int| #[trigger] self@.in_grid(px, py)
                    implies if in_box(min, max, px, py) && (px < x || (px == x && py < y + 1)) {
                        ||| self@.color_at(px, py) == color
                            && predicate.ensures((Vector2 { x: px as i32, y: py as i32 },), true)
                        ||| self@.color_at(px, py) == before.color_at(px, py)
                            && predicate.ensures((Vector2 { x: px as i32, y: py as i32 },), false)
                    } else {
                        self@.color_at(px, py) == before.color_at(px, py)
                    } by {
                    assert(mid.in_grid(px, py));
                }
                y = y + 1;
            }
            x = x + 1;
        }
    }

    /// Strokes the segment `ab`: writes `color` at exactly the pixels of the
    /// grid whose distance to the segment is below `thickness`, testing only
    /// the pixels of the segment's box widened by `thickness`.
    pub fn draw_line(&mut self, color: Color, a: Vector2, b: Vector2, thickness: u16)
        requires
            old(self)@.wf(),
        ensures
            final(self)@.wf(),
            final(self)@.same_size(old(self)@),
            forall|px: int, py: int| #[trigger] final(self)@.in_grid(px, py)
                ==> final(self)@.color_at(px, py) == if within_line(
                    a,
                    b,
                    Vector2 { x: px as i32, y: py as i32 },
                    thickness as int,
                ) {
                    color
                } else {
                    old(self)@.color_at(px, py)
                },
            !box_meets_grid(
                old(self)@,
                min_int(a.x as int, b.x as int) - thickness,
                min_int(a.y as int, b.y as int) - thickness,
                max_int(a.x as int, b.x as int) + thickness,
                max_int(a.y as int, b.y as int) + thickness,
            ) ==> final(self)@ == old(self)@,
    {
        let t = thickness as i64;
        let lo_x = (if a.x < b.x { a.x } else { b.x }) as i64 - t;
        let lo_y = (if a.y < b.y { a.y } else { b.y }) as i64 - t;
        let hi_x = (if a.x > b.x { a.x } else { b.x }) as i64 + t;
        let hi_y = (if a.y > b.y { a.y } else { b.y }) as i64 + t;
        let min = Vector2 {
            x: if lo_x < 0 { 0 } else { lo_x as i32 },
            y: if lo_y < 0 { 0 } else { lo_y as i32 },
        };
        let max = Vector2 {
            x: if hi_x > i32::MAX as i64 { i32::MAX } else { hi_x as i32 },
            y: if hi_y > i32::MAX as i64 { i32::MAX } else { hi_y as i32 },
        };
        let ghost before = self@;
        let near = move |v: Vector2| -> (r: bool)
            ensures
                r == within_line(a, b, v, thickness as int),
            { dist_to_line_below(a, b, v, thickness) };
        self.draw_where(color, near, min, max);
        assert forall|px: int, py: int| #[trigger] self@.in_grid(px, py)
            implies self@.color_at(px, py) == if within_line(
                a,
                b,
                Vector2 { x: px as i32, y: py as i32 },
                thickness as int,
            ) {
                color
            } else {
                before.color_at(px, py)
            } by {
            assert(px < i32::MAX && py < i32::MAX) by (nonlinear_arith)
                requires
                    0 <= px < self@.width,
                    0 <= py < self@.height,
                    self@.width * self@.height * 4 <= i32::MAX;
            assert(in_box(min, max, px, py) == in_line_box(a, b, thickness as int, px, py));
            let v = Vector2 { x: px as i32, y: py as i32 };
            if within_line(a, b, v, thickness as int) {
                lemma_within_line_in_box(a, b, v, thickness as int);
            }
        }
    }

    /// Draws laid-out glyphs in order: each pixel of a glyph's box that lies
    /// on the grid becomes the glyph's colour blended over `bg` at that
    /// pixel's coverage. No glyphs, no change.
    pub fn draw_text(&mut self, glyphs: &Vec<Glyph>, bg: Color)
        requires
            old(self)@.wf(),
            forall|i: int| 0 <= i < glyphs@.len() ==> (#[trigger] glyphs@[i]).wf(),
        ensures
            final(self)@.wf(),
            final(self)@.same_size(old(self)@),
            glyphs@.len() == 0 ==> final(self)@ == old(self)@,
            glyphs_off_grid(old(self)@, glyphs@) ==> final(self)@ == old(self)@,
            forall|px: int, py: int| #[trigger] final(self)@.in_grid(px, py)
                ==> final(self)@.color_at(px, py) == text_color(
                    old(self)@.color_at(px, py),
                    glyphs@,
                    bg,
                    px,
                    py,
                ),
    {
        let ghost before = self@;
        let mut i: usize = 0;
        while i < glyphs.len()
            invariant
                self@.wf(),
                self@.same_size(before),
                0 <= i <= glyphs@.len(),
                forall|k: int| 0 <= k < glyphs@.len() ==> (#[trigger] glyphs@[k]).wf(),
                glyphs_off_grid(before, glyphs@) ==> self@ == before,
                forall|px: int, py: int| #[trigger] self@.in_grid(px, py)
                    ==> self@.color_at(px, py) == text_color(
                        before.color_at(px, py),
                        glyphs@.take(i as int),
                        bg,
                        px,
                        py,
                    ),
            decreases glyphs@.len() - i,
        {
            let g = &glyphs[i];
            let ghost prev = glyphs@.take(i as int);
            assert(g.wf());
            let mut ly: u32 = 0;
            while ly < g.height
                invariant
                    self@.wf(),
                    self@.same_size(before),
                    g.wf(),
                    0 <= ly <= g.height,
                    glyphs_off_grid(before, glyphs@) ==> self@ == before,
                    g == glyphs@[i as int],
                    i < glyphs@.len(),
                    forall|px: int, py: int| #[trigger] self@.in_grid(px, py)
                        ==> self@.color_at(px, py) == if g.covers(px, py) && py - g.min_y < ly {
                            lerp_spec(g.color, bg, g.coverage_at(px, py))
                        } else {
                            text_color(before.color_at(px, py), prev, bg, px, py)
                        },
                decreases g.height - ly,
            {
                let mut lx: u32 = 0;
                while lx < g.width
                    invariant
                        self@.wf(),
                        self@.same_size(before),
                        g.wf(),
                        0 <= ly < g.height,
                        0 <= lx <= g.width,
                        glyphs_off_grid(before, glyphs@) ==> self@ == before,
                        g == glyphs@[i as int],
                        i < glyphs@.len(),
                        forall|px: int, py: int| #[trigger] self@.in_grid(px, py)
                            ==> self@.color_at(px, py) == if g.covers(px, py) && (py - g.min_y < ly
                                || (py - g.min_y == ly && px - g.min_x < lx)) {
                                lerp_spec(g.color, bg, g.coverage_at(px, py))
                            } else {
                                text_color(before.color_at(px, py), prev, bg, px, py)
                            },
                    decreases g.width - lx,
                {
                    let n = g.coverage.len();
                    proof {
                        lemma_grid_index(g.width as int, g.height as int, lx as int, ly as int);
                        assert(0 <= ly * g.width <= ly * g.width + lx) by (nonlinear_arith)
                            requires 0 <= ly, 0 <= g.width, 0 <= lx;
                    }
                    let k = (ly as usize) * (g.width as usize) + (lx as usize);
                    let c = g.color.lerp(bg, g.coverage[k]);
                    let tx = g.min_x as i64 + lx as i64;
                    let ty = g.min_y as i64 + ly as i64;
                    let ghost mid = self@;
                    self.write_pixel(tx, ty, c);
                    assert forall|px: int, py: int| #[trigger] self@.in_grid(px, py)
                        implies self@.color_at(px, py) == if g.covers(px, py) && (py - g.min_y < ly
                            || (py - g.min_y == ly && px - g.min_x < lx + 1)) {
                            lerp_spec(g.color, bg, g.coverage_at(px, py))
                        } else {
                            text_color(before.color_at(px, py), prev, bg, px, py)
                        } by {
                        assert(mid.in_grid(px, py));
                    }
                    lx = lx + 1;
                }
                ly = ly + 1;
            }
            proof {
                let next = glyphs@.take(i as int + 1);
                assert(next.drop_last() =~= prev);
                assert(next.last() == *g);
            }
            i = i + 1;
        }
        assert(glyphs@.take(glyphs@.len() as int) =~= glyphs@);
    }
}

} // verus!
