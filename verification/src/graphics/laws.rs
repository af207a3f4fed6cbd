//! What the drawing primitives promise, beyond their own contracts: the
//! facts about rectangles, glyphs and copies that callers build on.

use crate::drivers::framebuffer::{
    lemma_paint_congruent, lemma_paint_nothing, lemma_paint_pixel, lemma_paint_then_set,
    lemma_paint_wf, lemma_set_keeps_others, lemma_set_pixel_is_paint, lemma_set_then_get, solid,
    Pixel, Surface,
};
use crate::font::glyph_bit;
use crate::graphics::{
    copy_rect, copy_row, copy_rows, glyph_cell, glyph_colours, glyph_ink, rectangle,
    rectangle_upto, sample, shifted,
};
use vstd::prelude::*;

verus! {

/// A rectangle drawn from the origin over the whole framebuffer leaves every
/// pixel equal to the colour it was drawn with.
pub proof fn lemma_full_rectangle(s: Surface, p: Pixel, x: int, y: int)
    requires
        s.wf(),
        s.in_bounds(x, y),
    ensures
        s.paint(rectangle(0, 0, s.width as int, s.height as int), solid(p)).get_pixel(x, y)
            == Some(s.stored(p)),
        s.bytes_per_pixel >= 4 ==> s.paint(
            rectangle(0, 0, s.width as int, s.height as int),
            solid(p),
        ).get_pixel(x, y) == Some(p),
{
    lemma_paint_pixel(s, rectangle(0, 0, s.width as int, s.height as int), solid(p), x, y);
}

/// A transparent glyph alters no pixel of an unset dot, nor any pixel outside
/// its cell.
pub proof fn lemma_transparent_keeps_unset(
    s: Surface,
    x: int,
    y: int,
    glyph: Seq<u8>,
    font_size: int,
    text: Pixel,
    a: int,
    b: int,
)
    requires
        s.wf(),
        !glyph_ink(x, y, glyph, font_size)(a, b),
    ensures
        s.paint(glyph_ink(x, y, glyph, font_size), solid(text)).get_pixel(a, b) == s.get_pixel(
            a,
            b,
        ),
{
    if s.in_bounds(a, b) {
        lemma_paint_pixel(s, glyph_ink(x, y, glyph, font_size), solid(text), a, b);
    }
}

/// An opaque glyph overwrites every pixel of its cell: with the text colour
/// on a set dot, with the background colour on an unset one.
pub proof fn lemma_opaque_covers_cell(
    s: Surface,
    x: int,
    y: int,
    glyph: Seq<u8>,
    font_size: int,
    text: Pixel,
    background: Pixel,
    a: int,
    b: int,
)
    requires
        s.wf(),
        s.in_bounds(a, b),
        glyph_cell(x, y, font_size)(a, b),
    ensures
        s.paint(
            glyph_cell(x, y, font_size),
            glyph_colours(x, y, glyph, font_size, text, background),
        ).get_pixel(a, b) == Some(
            s.stored(
                if glyph_bit(glyph, (a - x) / font_size, (b - y) / font_size) {
                    text
                } else {
                    background
                },
            ),
        ),
{
    lemma_paint_pixel(
        s,
        glyph_cell(x, y, font_size),
        glyph_colours(x, y, glyph, font_size, text, background),
        a,
        b,
    );
}

/// Copying keeps the geometry and the well-formedness of a surface.
pub proof fn lemma_copy_row_wf(
    s: Surface,
    src_x: int,
    src_y: int,
    dest_x: int,
    dest_y: int,
    row: int,
    cols: int,
    fill: Pixel,
)
    requires
        s.wf(),
    ensures
        copy_row(s, src_x, src_y, dest_x, dest_y, row, cols, fill).wf(),
        copy_row(s, src_x, src_y, dest_x, dest_y, row, cols, fill).width == s.width,
        copy_row(s, src_x, src_y, dest_x, dest_y, row, cols, fill).height == s.height,
        copy_row(s, src_x, src_y, dest_x, dest_y, row, cols, fill).bytes_per_pixel
            == s.bytes_per_pixel,
    decreases cols,
{
    if cols > 0 {
        lemma_copy_row_wf(s, src_x, src_y, dest_x, dest_y, row, cols - 1, fill);
        let t = copy_row(s, src_x, src_y, dest_x, dest_y, row, cols - 1, fill);
        lemma_set_pixel_is_paint(
            t,
            sample(t, src_x + cols - 1, src_y + row, fill),
            dest_x + cols - 1,
            dest_y + row,
        );
    }
}

/// Copying keeps the geometry and the well-formedness of a surface.
pub proof fn lemma_copy_rect_wf(
    s: Surface,
    src_x: int,
    src_y: int,
    width: int,
    height: int,
    dest_x: int,
    dest_y: int,
    fill: Pixel,
)
    requires
        s.wf(),
    ensures
        copy_rect(s, src_x, src_y, width, height, dest_x, dest_y, fill).wf(),
        copy_rect(s, src_x, src_y, width, height, dest_x, dest_y, fill).width == s.width,
        copy_rect(s, src_x, src_y, width, height, dest_x, dest_y, fill).height == s.height,
        copy_rect(s, src_x, src_y, width, height, dest_x, dest_y, fill).bytes_per_pixel
            == s.bytes_per_pixel,
    decreases height,
{
    if height > 0 {
        lemma_copy_rect_wf(s, src_x, src_y, width, height - 1, dest_x, dest_y, fill);
        lemma_copy_row_wf(
            copy_rows(s, src_x, src_y, width, dest_x, dest_y, height - 1, fill),
            src_x,
            src_y,
            dest_x,
            dest_y,
            height - 1,
            width,
            fill,
        );
    }
}

/// Copying part of a row writes to that row of the destination only, and to
/// none of its pixels beyond the part.
proof fn lemma_copy_row_keeps(
    s: Surface,
    src_x: int,
    src_y: int,
    dest_x: int,
    dest_y: int,
    row: int,
    cols: int,
    fill: Pixel,
    a: int,
    b: int,
)
    requires
        s.wf(),
        b != dest_y + row || a >= dest_x + cols || a < dest_x,
    ensures
        copy_row(s, src_x, src_y, dest_x, dest_y, row, cols, fill).get_pixel(a, b) == s.get_pixel(
            a,
            b,
        ),
    decreases cols,
{
    if cols > 0 {
        lemma_copy_row_keeps(s, src_x, src_y, dest_x, dest_y, row, cols - 1, fill, a, b);
        lemma_copy_row_wf(s, src_x, src_y, dest_x, dest_y, row, cols - 1, fill);
        let t = copy_row(s, src_x, src_y, dest_x, dest_y, row, cols - 1, fill);
        lemma_set_keeps_others(
            t,
            sample(t, src_x + cols - 1, src_y + row, fill),
            dest_x + cols - 1,
            dest_y + row,
            a,
            b,
        );
    }
}

/// Within a row, a pixel copied from outside the framebuffer is the fill
/// colour once the copy has passed it.
proof fn lemma_copy_row_fills_outside(
    s: Surface,
    src_x: int,
    src_y: int,
    dest_x: int,
    dest_y: int,
    row: int,
    cols: int,
    fill: Pixel,
    i: int,
)
    requires
        s.wf(),
        0 <= i < cols,
        !s.in_bounds(src_x + i, src_y + row),
        s.in_bounds(dest_x + i, dest_y + row),
    ensures
        copy_row(s, src_x, src_y, dest_x, dest_y, row, cols, fill).get_pixel(
            dest_x + i,
            dest_y + row,
        ) == Some(s.stored(fill)),
    decreases cols,
{
    lemma_copy_row_wf(s, src_x, src_y, dest_x, dest_y, row, cols - 1, fill);
    let t = copy_row(s, src_x, src_y, dest_x, dest_y, row, cols - 1, fill);
    let p = sample(t, src_x + cols - 1, src_y + row, fill);
    if i == cols - 1 {
        lemma_set_then_get(t, p, dest_x + i, dest_y + row);
    } else {
        lemma_copy_row_fills_outside(s, src_x, src_y, dest_x, dest_y, row, cols - 1, fill, i);
        lemma_set_keeps_others(
            t,
            p,
            dest_x + cols - 1,
            dest_y + row,
            dest_x + i,
            dest_y + row,
        );
    }
}

/// A copy substitutes the fill colour for every sample outside the
/// framebuffer: where the source of an offset `(i, j)` of the region is out
/// of bounds and its destination is in bounds, the destination holds the fill
/// colour afterwards, whether or not source and destination overlap.
pub proof fn lemma_copy_fills_outside(
    s: Surface,
    src_x: int,
    src_y: int,
    width: int,
    height: int,
    dest_x: int,
    dest_y: int,
    fill: Pixel,
    i: int,
    j: int,
)
    requires
        s.wf(),
        0 <= i < width,
        0 <= j < height,
        !s.in_bounds(src_x + i, src_y + j),
        s.in_bounds(dest_x + i, dest_y + j),
    ensures
        copy_rect(s, src_x, src_y, width, height, dest_x, dest_y, fill).get_pixel(
            dest_x + i,
            dest_y + j,
        ) == Some(s.stored(fill)),
    decreases height,
{
    let t = copy_rows(s, src_x, src_y, width, dest_x, dest_y, height - 1, fill);
    lemma_copy_rect_wf(s, src_x, src_y, width, height - 1, dest_x, dest_y, fill);
    if j == height - 1 {
        lemma_copy_row_fills_outside(t, src_x, src_y, dest_x, dest_y, j, width, fill, i);
    } else {
        lemma_copy_fills_outside(s, src_x, src_y, width, height - 1, dest_x, dest_y, fill, i, j);
        lemma_copy_row_keeps(
            t,
            src_x,
            src_y,
            dest_x,
            dest_y,
            height - 1,
            width,
            fill,
            dest_x + i,
            dest_y + j,
        );
    }
}

/// A copy writes to its destination rectangle only: every other pixel is as
/// it was, whether or not source and destination overlap.
pub proof fn lemma_copy_keeps_outside(
    s: Surface,
    src_x: int,
    src_y: int,
    width: int,
    height: int,
    dest_x: int,
    dest_y: int,
    fill: Pixel,
    a: int,
    b: int,
)
    requires
        s.wf(),
        !rectangle(dest_x, dest_y, width, height)(a, b),
    ensures
        copy_rect(s, src_x, src_y, width, height, dest_x, dest_y, fill).get_pixel(a, b)
            == s.get_pixel(a, b),
    decreases height,
{
    if height > 0 {
        let t = copy_rows(s, src_x, src_y, width, dest_x, dest_y, height - 1, fill);
        lemma_copy_keeps_outside(s, src_x, src_y, width, height - 1, dest_x, dest_y, fill, a, b);
        lemma_copy_rect_wf(s, src_x, src_y, width, height - 1, dest_x, dest_y, fill);
        lemma_copy_row_keeps(t, src_x, src_y, dest_x, dest_y, height - 1, width, fill, a, b);
    }
}

/// Whether a copy reads every pixel before it could have written it: the
/// source lies below the destination, or on the same rows and not to its left.
pub open spec fn reads_ahead(src_x: int, src_y: int, dest_x: int, dest_y: int) -> bool {
    src_y > dest_y || (src_y == dest_y && src_x >= dest_x)
}

proof fn lemma_copy_rows_ahead(
    s: Surface,
    src_x: int,
    src_y: int,
    width: int,
    height: int,
    dest_x: int,
    dest_y: int,
    fill: Pixel,
    rows: int,
)
    requires
        s.wf(),
        reads_ahead(src_x, src_y, dest_x, dest_y),
        0 <= width,
        0 <= rows <= height,
    ensures
        copy_rows(s, src_x, src_y, width, dest_x, dest_y, rows, fill) == s.paint(
            rectangle_upto(dest_x, dest_y, width, height, dest_y + rows, dest_x),
            shifted(s, src_x, src_y, dest_x, dest_y, fill),
        ),
    decreases rows, 0int,
{
    let colours = shifted(s, src_x, src_y, dest_x, dest_y, fill);
    if rows <= 0 {
        lemma_paint_nothing(
            s,
            rectangle_upto(dest_x, dest_y, width, height, dest_y + rows, dest_x),
            colours,
        );
    } else {
        lemma_copy_row_ahead(
            s,
            src_x,
            src_y,
            width,
            height,
            dest_x,
            dest_y,
            fill,
            rows - 1,
            width,
        );
        lemma_paint_congruent(
            s,
            rectangle_upto(dest_x, dest_y, width, height, dest_y + rows - 1, dest_x + width),
            colours,
            rectangle_upto(dest_x, dest_y, width, height, dest_y + rows, dest_x),
            colours,
        );
    }
}

proof fn lemma_copy_row_ahead(
    s: Surface,
    src_x: int,
    src_y: int,
    width: int,
    height: int,
    dest_x: int,
    dest_y: int,
    fill: Pixel,
    row: int,
    cols: int,
)
    requires
        s.wf(),
        reads_ahead(src_x, src_y, dest_x, dest_y),
        0 <= row < height,
        0 <= cols <= width,
    ensures
        copy_row(
            copy_rows(s, src_x, src_y, width, dest_x, dest_y, row, fill),
            src_x,
            src_y,
            dest_x,
            dest_y,
            row,
            cols,
            fill,
        ) == s.paint(
            rectangle_upto(dest_x, dest_y, width, height, dest_y + row, dest_x + cols),
            shifted(s, src_x, src_y, dest_x, dest_y, fill),
        ),
    decreases row, 1 + cols,
{
    let colours = shifted(s, src_x, src_y, dest_x, dest_y, fill);
    if cols == 0 {
        lemma_copy_rows_ahead(s, src_x, src_y, width, height, dest_x, dest_y, fill, row);
    } else {
        lemma_copy_row_ahead(s, src_x, src_y, width, height, dest_x, dest_y, fill, row, cols - 1);
        let done = rectangle_upto(dest_x, dest_y, width, height, dest_y + row, dest_x + cols - 1);
        let t = s.paint(done, colours);
        let (from_x, from_y) = (src_x + cols - 1, src_y + row);
        lemma_paint_wf(s, done, colours);
        if s.in_bounds(from_x, from_y) {
            lemma_paint_pixel(s, done, colours, from_x, from_y);
        }
        assert(sample(t, from_x, from_y, fill) == sample(s, from_x, from_y, fill));
        lemma_paint_then_set(
            s,
            done,
            colours,
            sample(s, from_x, from_y, fill),
            dest_x + cols - 1,
            dest_y + row,
            rectangle_upto(dest_x, dest_y, width, height, dest_y + row, dest_x + cols),
            colours,
        );
    }
}

/// A copy that reads ahead of its writes moves the picture: every pixel of the
/// destination rectangle gets what the source held, at the same offset,
/// before the copy began, or the fill colour where that lies outside the
/// framebuffer.
pub proof fn lemma_copy_reading_ahead(
    s: Surface,
    src_x: int,
    src_y: int,
    width: int,
    height: int,
    dest_x: int,
    dest_y: int,
    fill: Pixel,
)
    requires
        s.wf(),
        reads_ahead(src_x, src_y, dest_x, dest_y),
        0 <= width,
        0 <= height,
    ensures
        copy_rect(s, src_x, src_y, width, height, dest_x, dest_y, fill) == s.paint(
            rectangle(dest_x, dest_y, width, height),
            shifted(s, src_x, src_y, dest_x, dest_y, fill),
        ),
{
    let colours = shifted(s, src_x, src_y, dest_x, dest_y, fill);
    lemma_copy_rows_ahead(s, src_x, src_y, width, height, dest_x, dest_y, fill, height);
    lemma_paint_congruent(
        s,
        rectangle_upto(dest_x, dest_y, width, height, dest_y + height, dest_x),
        colours,
        rectangle(dest_x, dest_y, width, height),
        colours,
    );
}

/// What a copy that reads ahead of its writes leaves at a pixel: inside the
/// destination rectangle the sample at the same offset from the source
/// corner, clipped writes included, and outside it what was there.
pub proof fn lemma_copied_pixel(
    s: Surface,
    src_x: int,
    src_y: int,
    width: int,
    height: int,
    dest_x: int,
    dest_y: int,
    fill: Pixel,
    a: int,
    b: int,
)
    requires
        s.wf(),
        reads_ahead(src_x, src_y, dest_x, dest_y),
        0 <= width,
        0 <= height,
        s.in_bounds(a, b),
    ensures
        copy_rect(s, src_x, src_y, width, height, dest_x, dest_y, fill).get_pixel(a, b) == Some(
            if rectangle(dest_x, dest_y, width, height)(a, b) {
                s.stored(sample(s, a - dest_x + src_x, b - dest_y + src_y, fill))
            } else {
                s.pixel_at(a, b)
            },
        ),
{
    lemma_copy_reading_ahead(s, src_x, src_y, width, height, dest_x, dest_y, fill);
    lemma_paint_pixel(
        s,
        rectangle(dest_x, dest_y, width, height),
        shifted(s, src_x, src_y, dest_x, dest_y, fill),
        a,
        b,
    );
}

} // verus!
