//! The pixel renderer: rectangles, lines, region copies and glyphs, all built
//! on [`Framebuffer::set_pixel`] and [`Framebuffer::get_pixel`], so that every
//! primitive clips at the framebuffer's edge instead of faulting.
//!
//! Coordinates are mathematical integers in the contracts. A shape may extend
//! past the edge of the framebuffer, or past the largest `usize`: whatever part
//! of it lies inside the framebuffer is drawn, and the rest is ignored.

use crate::drivers::framebuffer::{
    lemma_paint_congruent, lemma_paint_nothing, lemma_paint_then_set, lemma_paint_twice,
    lemma_paint_wf, solid, Framebuffer, FramebufferIndex, FramebufferMemory, Pixel, Surface,
};
use crate::font::{basic_glyph, glyph_bit, glyph_dot, lookup_glyph};
use crate::graphics::line::{
    abs_diff, lemma_line_grows, lemma_walk_position, lemma_walk_starts, lemma_walk_steps, line,
    line_length, line_point, line_upto, toward, walk_state,
};
use vstd::prelude::*;

pub mod laws;
pub mod line;

verus! {

/// The region `[x, x + w) x [y, y + h)`.
pub open spec fn rectangle(x: int, y: int, w: int, h: int) -> spec_fn(int, int) -> bool {
    |a: int, b: int| x <= a < x + w && y <= b < y + h
}

/// The part of a rectangle that a row-major walk has covered when it stands
/// at column `col` of row `row`.
pub open spec fn rectangle_upto(x: int, y: int, w: int, h: int, row: int, col: int) -> spec_fn(
    int,
    int,
) -> bool {
    |a: int, b: int| x <= a < x + w && y <= b < y + h && (b < row || (b == row && a < col))
}

/// The colour that a copy reads at `(x, y)`: the pixel there, or `fill` where
/// `(x, y)` is outside the framebuffer.
pub open spec fn sample(s: Surface, x: int, y: int, fill: Pixel) -> Pixel {
    match s.get_pixel(x, y) {
        Some(p) => p,
        None => fill,
    }
}

/// The surface after the first `cols` pixels of row `row` of a region have
/// been copied, one after the other, each read before it is written.
pub open spec fn copy_row(
    s: Surface,
    src_x: int,
    src_y: int,
    dest_x: int,
    dest_y: int,
    row: int,
    cols: int,
    fill: Pixel,
) -> Surface
    decreases cols,
{
    if cols <= 0 {
        s
    } else {
        let t = copy_row(s, src_x, src_y, dest_x, dest_y, row, cols - 1, fill);
        t.set_pixel(
            sample(t, src_x + cols - 1, src_y + row, fill),
            dest_x + cols - 1,
            dest_y + row,
        )
    }
}

/// The surface after the first `rows` rows of a region `width` pixels wide
/// have been copied, top to bottom.
pub open spec fn copy_rows(
    s: Surface,
    src_x: int,
    src_y: int,
    width: int,
    dest_x: int,
    dest_y: int,
    rows: int,
    fill: Pixel,
) -> Surface
    decreases rows,
{
    if rows <= 0 {
        s
    } else {
        copy_row(
            copy_rows(s, src_x, src_y, width, dest_x, dest_y, rows - 1, fill),
            src_x,
            src_y,
            dest_x,
            dest_y,
            rows - 1,
            width,
            fill,
        )
    }
}

/// The surface after a region has been copied pixel by pixel, row by row.
/// Where source and destination overlap, a pixel that was already written is
/// read as written.
pub open spec fn copy_rect(
    s: Surface,
    src_x: int,
    src_y: int,
    width: int,
    height: int,
    dest_x: int,
    dest_y: int,
    fill: Pixel,
) -> Surface {
    copy_rows(s, src_x, src_y, width, dest_x, dest_y, height, fill)
}

/// The colour function of a copy that reads only what was there before it
/// began: each destination pixel gets the sample at the same offset from the
/// source corner.
pub open spec fn shifted(
    s: Surface,
    src_x: int,
    src_y: int,
    dest_x: int,
    dest_y: int,
    fill: Pixel,
) -> spec_fn(int, int) -> Pixel {
    |a: int, b: int| sample(s, a - dest_x + src_x, b - dest_y + src_y, fill)
}

/// The square of `8 * font_size` pixels a side that a glyph drawn at `(x, y)`
/// occupies.
pub open spec fn glyph_cell(x: int, y: int, font_size: int) -> spec_fn(int, int) -> bool {
    |a: int, b: int| x <= a < x + 8 * font_size && y <= b < y + 8 * font_size
}

/// The pixels of the glyph cell at `(x, y)` that belong to a set dot of the
/// glyph. Dot `(gx, gy)` is the block of `font_size` pixels a side at
/// `(x + gx * font_size, y + gy * font_size)`.
pub open spec fn glyph_ink(x: int, y: int, glyph: Seq<u8>, font_size: int) -> spec_fn(
    int,
    int,
) -> bool {
    |a: int, b: int|
        x <= a < x + 8 * font_size && y <= b < y + 8 * font_size && glyph_bit(
            glyph,
            (a - x) / font_size,
            (b - y) / font_size,
        )
}

/// The colour of each pixel of an opaque glyph: `text` on the set dots,
/// `background` on the others.
pub open spec fn glyph_colours(
    x: int,
    y: int,
    glyph: Seq<u8>,
    font_size: int,
    text: Pixel,
    background: Pixel,
) -> spec_fn(int, int) -> Pixel {
    |a: int, b: int|
        if glyph_bit(glyph, (a - x) / font_size, (b - y) / font_size) {
            text
        } else {
            background
        }
}

/// The part of a glyph that has been drawn when the walk over its dots, row
/// by row, stands at dot `(gx, gy)`: all of each earlier dot's block where
/// the glyph is `opaque`, and the blocks of the set dots only where it is not.
pub open spec fn glyph_upto(
    x: int,
    y: int,
    glyph: Seq<u8>,
    font_size: int,
    opaque: bool,
    gy: int,
    gx: int,
) -> spec_fn(int, int) -> bool {
    |a: int, b: int|
        x <= a < x + 8 * font_size && y <= b < y + 8 * font_size && (opaque || glyph_bit(
            glyph,
            (a - x) / font_size,
            (b - y) / font_size,
        )) && ((b - y) / font_size < gy || ((b - y) / font_size == gy && (a - x) / font_size
            < gx))
}

/// A coordinate lies in block number `g` of a glyph that starts at `x`
/// exactly when dividing its distance from `x` by the block size gives `g`.
pub proof fn lemma_block_index(a: int, x: int, font_size: int, g: int)
    requires
        font_size > 0,
    ensures
        (x + g * font_size <= a < x + g * font_size + font_size) <==> (a - x) / font_size == g,
        0 <= g < 8 ==> x <= x + g * font_size && x + g * font_size + font_size <= x + 8
            * font_size,
        x <= a < x + 8 * font_size ==> 0 <= (a - x) / font_size < 8,
{
    let q = (a - x) / font_size;
    vstd::arithmetic::div_mod::lemma_fundamental_div_mod(a - x, font_size);
    vstd::arithmetic::div_mod::lemma_mod_bound(a - x, font_size);
    assert((g * font_size <= a - x < g * font_size + font_size) <==> q == g) by (nonlinear_arith)
        requires
            a - x == font_size * q + (a - x) % font_size,
            0 <= (a - x) % font_size < font_size,
    ;
    assert(0 <= g < 8 ==> 0 <= g * font_size && g * font_size + font_size <= 8 * font_size)
        by (nonlinear_arith)
        requires
            font_size > 0,
    ;
    assert(0 <= a - x < 8 * font_size ==> 0 <= q < 8) by (nonlinear_arith)
        requires
            a - x == font_size * q + (a - x) % font_size,
            0 <= (a - x) % font_size < font_size,
    ;
}

/// A simple graphics API for plotting pixels and drawing shapes on the
/// framebuffer that it owns.
#[derive(Debug)]
pub struct GraphicsAPI {
    framebuffer: FramebufferMemory,
}

impl View for GraphicsAPI {
    type V = Surface;

    closed spec fn view(&self) -> Surface {
        self.framebuffer@
    }
}

impl GraphicsAPI {
    /// Creates the graphics api from a framebuffer.
    pub fn new(framebuffer: FramebufferMemory) -> (api: Self)
        ensures
            api@ == framebuffer@,
    {
        GraphicsAPI { framebuffer }
    }

    /// The framebuffer that is drawn to.
    pub fn framebuffer(&self) -> (fb: &FramebufferMemory)
        ensures
            fb@ == self@,
    {
        &self.framebuffer
    }

    /// Gives the framebuffer back.
    pub fn into_framebuffer(self) -> (fb: FramebufferMemory)
        ensures
            fb@ == self@,
    {
        self.framebuffer
    }

    /// Plot a pixel at the specified location (x, y) with the given colour.
    /// Nothing is drawn when the location is outside the framebuffer.
    pub fn plot_pixel(&mut self, x: usize, y: usize, pixel: Pixel)
        ensures
            final(self)@ == old(self)@.set_pixel(pixel, x as int, y as int),
            final(self)@.wf(),
    {
        proof {
            use_type_invariant(&self.framebuffer);
        }
        let index = FramebufferIndex { x, y };
        Framebuffer::set_pixel(&mut self.framebuffer, pixel, index);
    }

    /// Draw a filled rectangle at the specified location with the given
    /// colour: every pixel of `[x, x + width) x [y, y + height)` that lies in
    /// the framebuffer.
    pub fn draw_filled_rectangle(
        &mut self,
        x: usize,
        y: usize,
        width: usize,
        height: usize,
        pixel: Pixel,
    )
        ensures
            final(self)@ == old(self)@.paint(
                rectangle(x as int, y as int, width as int, height as int),
                solid(pixel),
            ),
            final(self)@.wf(),
    {
        proof {
            use_type_invariant(&self.framebuffer);
        }
        let x_end = clip_end(x, width, self.framebuffer.width());
        let y_end = clip_end(y, height, self.framebuffer.height());
        let ghost s = self@;
        let ghost (gx, gy, gw, gh) = (x as int, y as int, width as int, height as int);
        proof {
            lemma_paint_nothing(s, rectangle_upto(gx, gy, gw, gh, gy, gx), solid(pixel));
        }
        let mut i = y;
        while i < y_end
            invariant
                s.wf(),
                gx == x && gy == y && gw == width && gh == height,
                x_end == clip(x as int, width as int, s.width as int),
                y_end == clip(y as int, height as int, s.height as int),
                y <= i,
                i <= y_end || y_end <= y,
                self@ == s.paint(rectangle_upto(gx, gy, gw, gh, i as int, gx), solid(pixel)),
            decreases y_end - i,
        {
            let mut j = x;
            while j < x_end
                invariant
                    s.wf(),
                    gx == x && gy == y && gw == width && gh == height,
                    x_end == clip(x as int, width as int, s.width as int),
                    y_end == clip(y as int, height as int, s.height as int),
                    y <= i < y_end,
                    x <= j,
                    j <= x_end || x_end <= x,
                    self@ == s.paint(
                        rectangle_upto(gx, gy, gw, gh, i as int, j as int),
                        solid(pixel),
                    ),
                decreases x_end - j,
            {
                self.plot_pixel(j, i, pixel);
                proof {
                    lemma_paint_then_set(
                        s,
                        rectangle_upto(gx, gy, gw, gh, i as int, j as int),
                        solid(pixel),
                        pixel,
                        j as int,
                        i as int,
                        rectangle_upto(gx, gy, gw, gh, i as int, j + 1),
                        solid(pixel),
                    );
                }
                j += 1;
            }
            proof {
                lemma_paint_congruent(
                    s,
                    rectangle_upto(gx, gy, gw, gh, i as int, j as int),
                    solid(pixel),
                    rectangle_upto(gx, gy, gw, gh, i + 1, gx),
                    solid(pixel),
                );
            }
            i += 1;
        }
        proof {
            lemma_paint_congruent(
                s,
                rectangle_upto(gx, gy, gw, gh, i as int, gx),
                solid(pixel),
                rectangle(gx, gy, gw, gh),
                solid(pixel),
            );
            lemma_paint_wf(s, rectangle(gx, gy, gw, gh), solid(pixel));
        }
    }

    /// Draw a line from (x1, y1) to (x2, y2) with the given colour, by the
    /// integer Bresenham walk. The start is drawn; the end is not: a caller
    /// that wants the end point drawn plots it itself.
    pub fn draw_line(&mut self, x1: usize, y1: usize, x2: usize, y2: usize, pixel: Pixel)
        ensures
            final(self)@ == old(self)@.paint(
                line(x1 as int, y1 as int, x2 as int, y2 as int),
                solid(pixel),
            ),
            final(self)@.wf(),
    {
        proof {
            use_type_invariant(&self.framebuffer);
        }
        let ghost s = self@;
        let ghost (px, py, qx, qy) = (x1 as int, y1 as int, x2 as int, y2 as int);
        let dx: i128 = if x1 < x2 {
            (x2 - x1) as i128
        } else {
            (x1 - x2) as i128
        };
        let dy: i128 = if y1 < y2 {
            (y2 - y1) as i128
        } else {
            (y1 - y2) as i128
        };
        let mut err: i128 = dx - dy;
        let mut x = x1;
        let mut y = y1;
        let ghost mut k: int = 0;
        let ghost mut a: int = 0;
        let ghost mut b: int = 0;
        proof {
            lemma_line_grows(px, py, qx, qy, 0);
            lemma_paint_nothing(s, line_upto(px, py, qx, qy, 0), solid(pixel));
            if dx > 0 || dy > 0 {
                lemma_walk_starts(dx as int, dy as int);
            }
        }
        while x != x2 || y != y2
            invariant
                s.wf(),
                px == x1 && py == y1 && qx == x2 && qy == y2,
                dx == abs_diff(px, qx),
                dy == abs_diff(py, qy),
                x == toward(px, qx, a),
                y == toward(py, qy, b),
                0 <= k,
                dx > 0 || dy > 0 ==> walk_state(dx as int, dy as int, k, a, b, err as int),
                dx == 0 && dy == 0 ==> k == 0 && a == 0 && b == 0,
                self@ == s.paint(line_upto(px, py, qx, qy, k), solid(pixel)),
            decreases line_length(px, py, qx, qy) - k,
        {
            proof {
                lemma_walk_position(dx as int, dy as int, k, a, b, err as int);
                lemma_walk_steps(dx as int, dy as int, k, a, b, err as int);
                lemma_line_grows(px, py, qx, qy, k);
                assert(line_point(px, py, qx, qy, k) == (x as int, y as int));
            }
            self.plot_pixel(x, y, pixel);
            proof {
                lemma_paint_then_set(
                    s,
                    line_upto(px, py, qx, qy, k),
                    solid(pixel),
                    pixel,
                    x as int,
                    y as int,
                    line_upto(px, py, qx, qy, k + 1),
                    solid(pixel),
                );
            }
            let e2 = 2 * err;
            proof {
                // Neither step leaves the span between the two end points.
                lemma_walk_position(
                    dx as int,
                    dy as int,
                    k + 1,
                    if e2 > -dy {
                        a + 1
                    } else {
                        a
                    },
                    if e2 < dx {
                        b + 1
                    } else {
                        b
                    },
                    err - (if e2 > -dy {
                        dy as int
                    } else {
                        0
                    }) + (if e2 < dx {
                        dx as int
                    } else {
                        0
                    }),
                );
            }
            if e2 > -dy {
                err -= dy;
                x = if x1 < x2 {
                    x + 1
                } else {
                    x - 1
                };
                proof {
                    a = a + 1;
                }
            }
            if e2 < dx {
                err += dx;
                y = if y1 < y2 {
                    y + 1
                } else {
                    y - 1
                };
                proof {
                    b = b + 1;
                }
            }
            proof {
                k = k + 1;
            }
        }
        proof {
            if dx > 0 || dy > 0 {
                lemma_walk_position(dx as int, dy as int, k, a, b, err as int);
            }
            assert(k == line_length(px, py, qx, qy));
            lemma_paint_wf(s, line(px, py, qx, qy), solid(pixel));
        }
    }

    /// Copy a rectangular region from the source location to the destination
    /// location, pixel by pixel and row by row. A source pixel outside the
    /// framebuffer reads as `fill_colour`; a destination pixel outside the
    /// framebuffer is skipped.
    pub fn copy_rect(
        &mut self,
        src_x: usize,
        src_y: usize,
        width: usize,
        height: usize,
        dest_x: usize,
        dest_y: usize,
        fill_colour: Pixel,
    )
        ensures
            final(self)@ == copy_rect(
                old(self)@,
                src_x as int,
                src_y as int,
                width as int,
                height as int,
                dest_x as int,
                dest_y as int,
                fill_colour,
            ),
            final(self)@.wf(),
    {
        proof {
            use_type_invariant(&self.framebuffer);
        }
        let ghost s = self@;
        let ghost (sx, sy, dx, dy) = (src_x as int, src_y as int, dest_x as int, dest_y as int);
        let fb_width = self.framebuffer.width();
        let fb_height = self.framebuffer.height();
        let mut y: usize = 0;
        while y < height
            invariant
                sx == src_x && sy == src_y && dx == dest_x && dy == dest_y,
                fb_width == self@.width,
                fb_height == self@.height,
                y <= height,
                self@.wf(),
                self@ == copy_rows(s, sx, sy, width as int, dx, dy, y as int, fill_colour),
            decreases height - y,
        {
            let ghost top = self@;
            let mut x: usize = 0;
            while x < width
                invariant
                    sx == src_x && sy == src_y && dx == dest_x && dy == dest_y,
                    fb_width == self@.width,
                    fb_height == self@.height,
                    y < height,
                    x <= width,
                    self@.wf(),
                    self@ == copy_row(top, sx, sy, dx, dy, y as int, x as int, fill_colour),
                decreases width - x,
            {
                let src_colour = match (src_x.checked_add(x), src_y.checked_add(y)) {
                    (Some(from_x), Some(from_y)) => {
                        let src_index = FramebufferIndex { x: from_x, y: from_y };
                        match Framebuffer::get_pixel(&self.framebuffer, src_index) {
                            Some(p) => p,
                            None => fill_colour,
                        }
                    },
                    _ => fill_colour,
                };
                assert(src_colour == sample(self@, sx + x, sy + y, fill_colour));
                match (dest_x.checked_add(x), dest_y.checked_add(y)) {
                    (Some(to_x), Some(to_y)) => {
                        let dest_index = FramebufferIndex { x: to_x, y: to_y };
                        Framebuffer::set_pixel(&mut self.framebuffer, src_colour, dest_index);
                    },
                    _ => {},
                }
                x += 1;
            }
            y += 1;
        }
    }

    /// Paints the block of one glyph dot: the square of `font_size` pixels a
    /// side at `(x + gx * font_size, y + gy * font_size)`.
    fn draw_block(
        &mut self,
        x: usize,
        y: usize,
        gx: usize,
        gy: usize,
        font_size: usize,
        pixel: Pixel,
    )
        ensures
            final(self)@ == old(self)@.paint(
                rectangle(x + gx * font_size, y + gy * font_size, font_size as int, font_size as int),
                solid(pixel),
            ),
            final(self)@.wf(),
    {
        proof {
            use_type_invariant(&self.framebuffer);
        }
        let ghost block = rectangle(
            x + gx * font_size,
            y + gy * font_size,
            font_size as int,
            font_size as int,
        );
        let left = match gx.checked_mul(font_size) {
            Some(offset) => x.checked_add(offset),
            None => None,
        };
        let top = match gy.checked_mul(font_size) {
            Some(offset) => y.checked_add(offset),
            None => None,
        };
        let fb_width = self.framebuffer.width();
        let fb_height = self.framebuffer.height();
        assert(left is None ==> x + gx * font_size > fb_width);
        assert(top is None ==> y + gy * font_size > fb_height);
        match (left, top) {
            (Some(left), Some(top)) => {
                self.draw_filled_rectangle(left, top, font_size, font_size, pixel);
            },
            _ => {
                proof {
                    // The block starts beyond the largest coordinate there is.
                    lemma_paint_nothing(self@, block, solid(pixel));
                }
            },
        }
    }

    /// Walks the dots of a glyph row by row and paints their blocks: `text`
    /// for a set dot, and `background`, where there is one, for the others.
    fn draw_dots(
        &mut self,
        x: usize,
        y: usize,
        glyph: &[u8; 8],
        text: Pixel,
        background: Option<Pixel>,
        font_size: usize,
    )
        ensures
            final(self)@ == old(self)@.paint(
                glyph_upto(
                    x as int,
                    y as int,
                    glyph@,
                    font_size as int,
                    background is Some,
                    8,
                    0,
                ),
                glyph_colours(
                    x as int,
                    y as int,
                    glyph@,
                    font_size as int,
                    text,
                    match background {
                        Some(colour) => colour,
                        None => text,
                    },
                ),
            ),
            final(self)@.wf(),
    {
        proof {
            use_type_invariant(&self.framebuffer);
        }
        let ghost s = self@;
        let ghost (px, py, fs) = (x as int, y as int, font_size as int);
        let ghost opaque = background is Some;
        let ghost colours = glyph_colours(
            px,
            py,
            glyph@,
            fs,
            text,
            match background {
                Some(colour) => colour,
                None => text,
            },
        );
        if font_size == 0 {
            proof {
                lemma_paint_nothing(s, glyph_upto(px, py, glyph@, fs, opaque, 8, 0), colours);
            }
            return ;
        }
        proof {
            assert forall|a: int, b: int| s.in_bounds(a, b) implies !#[trigger] glyph_upto(
                px,
                py,
                glyph@,
                fs,
                opaque,
                0,
                0,
            )(a, b) by {
                lemma_block_index(b, py, fs, 0);
            }
            lemma_paint_nothing(s, glyph_upto(px, py, glyph@, fs, opaque, 0, 0), colours);
        }
        let mut gy: usize = 0;
        while gy < 8
            invariant
                s.wf(),
                font_size > 0,
                px == x && py == y && fs == font_size,
                opaque == (background is Some),
                colours == glyph_colours(
                    px,
                    py,
                    glyph@,
                    fs,
                    text,
                    match background {
                        Some(colour) => colour,
                        None => text,
                    },
                ),
                gy <= 8,
                self@ == s.paint(glyph_upto(px, py, glyph@, fs, opaque, gy as int, 0), colours),
            decreases 8 - gy,
        {
            let mut gx: usize = 0;
            while gx < 8
                invariant
                    s.wf(),
                    font_size > 0,
                    px == x && py == y && fs == font_size,
                    opaque == (background is Some),
                    colours == glyph_colours(
                        px,
                        py,
                        glyph@,
                        fs,
                        text,
                        match background {
                            Some(colour) => colour,
                            None => text,
                        },
                    ),
                    gy < 8,
                    gx <= 8,
                    self@ == s.paint(
                        glyph_upto(px, py, glyph@, fs, opaque, gy as int, gx as int),
                        colours,
                    ),
                decreases 8 - gx,
            {
                let ghost before = glyph_upto(px, py, glyph@, fs, opaque, gy as int, gx as int);
                let ghost after = glyph_upto(px, py, glyph@, fs, opaque, gy as int, gx + 1);
                let ghost block = rectangle(px + gx * fs, py + gy * fs, fs, fs);
                let ink = if glyph_dot(glyph, gx, gy) {
                    Some(text)
                } else {
                    background
                };
                proof {
                    assert forall|a: int, b: int| #[trigger] block(a, b) <==> (px <= a < px + 8 * fs
                        && py <= b < py + 8 * fs && (a - px) / fs == gx && (b - py) / fs
                        == gy) by {
                        lemma_block_index(a, px, fs, gx as int);
                        lemma_block_index(b, py, fs, gy as int);
                    }
                }
                match ink {
                    Some(colour) => {
                        self.draw_block(x, y, gx, gy, font_size, colour);
                        proof {
                            lemma_paint_twice(
                                s,
                                before,
                                colours,
                                block,
                                solid(colour),
                                after,
                                colours,
                            );
                        }
                    },
                    None => {
                        proof {
                            lemma_paint_congruent(s, before, colours, after, colours);
                        }
                    },
                }
                gx += 1;
            }
            proof {
                assert forall|a: int, b: int| s.in_bounds(a, b) implies #[trigger] glyph_upto(
                    px,
                    py,
                    glyph@,
                    fs,
                    opaque,
                    gy as int,
                    8,
                )(a, b) == glyph_upto(px, py, glyph@, fs, opaque, gy + 1, 0)(a, b) by {
                    lemma_block_index(a, px, fs, 0);
                }
                lemma_paint_congruent(
                    s,
                    glyph_upto(px, py, glyph@, fs, opaque, gy as int, 8),
                    colours,
                    glyph_upto(px, py, glyph@, fs, opaque, gy + 1, 0),
                    colours,
                );
            }
            gy += 1;
        }
        proof {
            lemma_paint_wf(s, glyph_upto(px, py, glyph@, fs, opaque, 8, 0), colours);
        }
    }

    /// Draws a glyph at a given location with a font size, fully opaque:
    /// every pixel of the glyph cell is overwritten, with `text` where the dot
    /// is set and with `background` where it is not.
    pub fn draw_glyph(
        &mut self,
        x: usize,
        y: usize,
        glyph: &[u8; 8],
        text: Pixel,
        background: Pixel,
        font_size: usize,
    )
        ensures
            final(self)@ == old(self)@.paint(
                glyph_cell(x as int, y as int, font_size as int),
                glyph_colours(x as int, y as int, glyph@, font_size as int, text, background),
            ),
            final(self)@.wf(),
    {
        proof {
            use_type_invariant(&self.framebuffer);
        }
        self.draw_dots(x, y, glyph, text, Some(background), font_size);
        proof {
            let (px, py, fs) = (x as int, y as int, font_size as int);
            let colours = glyph_colours(px, py, glyph@, fs, text, background);
            assert forall|a: int, b: int| old(self)@.in_bounds(a, b) implies #[trigger] glyph_upto(
                px,
                py,
                glyph@,
                fs,
                true,
                8,
                0,
            )(a, b) == glyph_cell(px, py, fs)(a, b) by {
                if fs > 0 {
                    lemma_block_index(b, py, fs, 0);
                }
            }
            lemma_paint_congruent(
                old(self)@,
                glyph_upto(px, py, glyph@, fs, true, 8, 0),
                colours,
                glyph_cell(px, py, fs),
                colours,
            );
        }
    }

    /// Draws a glyph at a given location with a font size on a transparent
    /// background: only the pixels of set dots are painted, and whatever was
    /// behind the glyph stays visible elsewhere.
    pub fn draw_glyph_transparent(
        &mut self,
        x: usize,
        y: usize,
        glyph: &[u8; 8],
        text: Pixel,
        font_size: usize,
    )
        ensures
            final(self)@ == old(self)@.paint(
                glyph_ink(x as int, y as int, glyph@, font_size as int),
                solid(text),
            ),
            final(self)@.wf(),
    {
        proof {
            use_type_invariant(&self.framebuffer);
        }
        self.draw_dots(x, y, glyph, text, None, font_size);
        proof {
            let (px, py, fs) = (x as int, y as int, font_size as int);
            let colours = glyph_colours(px, py, glyph@, fs, text, text);
            assert forall|a: int, b: int| old(self)@.in_bounds(a, b) implies #[trigger] glyph_upto(
                px,
                py,
                glyph@,
                fs,
                false,
                8,
                0,
            )(a, b) == glyph_ink(px, py, glyph@, fs)(a, b) by {
                if fs > 0 {
                    lemma_block_index(b, py, fs, 0);
                }
            }
            lemma_paint_congruent(
                old(self)@,
                glyph_upto(px, py, glyph@, fs, false, 8, 0),
                colours,
                glyph_ink(px, py, glyph@, fs),
                solid(text),
            );
        }
    }

    /// Draws a character at a given location with a font size, fully opaque.
    /// All characters of the basic font table can be used; for any other
    /// character nothing is drawn.
    pub fn draw_char(
        &mut self,
        x: usize,
        y: usize,
        c: char,
        text: Pixel,
        background: Pixel,
        font_size: usize,
    )
        ensures
            final(self)@ == match basic_glyph(c) {
                Some(glyph) => old(self)@.paint(
                    glyph_cell(x as int, y as int, font_size as int),
                    glyph_colours(x as int, y as int, glyph, font_size as int, text, background),
                ),
                None => old(self)@,
            },
            (c as u32) >= 0x80 ==> final(self)@ == old(self)@,
            final(self)@.wf(),
    {
        proof {
            use_type_invariant(&self.framebuffer);
        }
        if let Some(glyph) = lookup_glyph(c) {
            self.draw_glyph(x, y, &glyph, text, background, font_size);
        }
    }

    /// Draws a character at a given location with a font size on a
    /// transparent background. All characters of the basic font table can be
    /// used; for any other character nothing is drawn.
    pub fn draw_char_transparent(
        &mut self,
        x: usize,
        y: usize,
        c: char,
        text: Pixel,
        font_size: usize,
    )
        ensures
            final(self)@ == match basic_glyph(c) {
                Some(glyph) => old(self)@.paint(
                    glyph_ink(x as int, y as int, glyph, font_size as int),
                    solid(text),
                ),
                None => old(self)@,
            },
            (c as u32) >= 0x80 ==> final(self)@ == old(self)@,
            final(self)@.wf(),
    {
        proof {
            use_type_invariant(&self.framebuffer);
        }
        if let Some(glyph) = lookup_glyph(c) {
            self.draw_glyph_transparent(x, y, &glyph, text, font_size);
        }
    }

    /// Get the width of the framebuffer.
    pub fn get_width(&self) -> (w: usize)
        ensures
            w == self@.width,
    {
        self.framebuffer.width()
    }

    /// Get the height of the framebuffer.
    pub fn get_height(&self) -> (h: usize)
        ensures
            h == self@.height,
    {
        self.framebuffer.height()
    }
}

/// Where the interval `[start, start + len)` ends once it is cut off at
/// `limit`.
pub open spec fn clip(start: int, len: int, limit: int) -> int {
    if start + len < limit {
        start + len
    } else {
        limit
    }
}

/// End of `[start, start + len)` cut off at `limit`, computed without
/// overflow.
fn clip_end(start: usize, len: usize, limit: usize) -> (end: usize)
    ensures
        end == clip(start as int, len as int, limit as int),
{
    match start.checked_add(len) {
        Some(end) => if end < limit {
            end
        } else {
            limit
        },
        None => limit,
    }
}

} // verus!
