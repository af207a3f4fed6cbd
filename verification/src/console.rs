//! The text console: a cursor on top of the renderer. It turns a stream of
//! characters into glyphs, wraps at the right edge and scrolls at the bottom.
//!
//! The cursor is a pixel position. One glyph is `8 * font_size` pixels wide
//! and high; that length is called the span below.

use crate::drivers::framebuffer::{
    everywhere, lemma_paint_congruent, lemma_paint_pixel, lemma_paint_twice, lemma_paint_wf,
    solid, Pixel, Surface,
};
use crate::font::{basic_glyph, lookup_glyph};
use crate::graphics::laws::lemma_copy_reading_ahead;
use crate::graphics::{glyph_cell, glyph_colours, rectangle, shifted, GraphicsAPI};
use vstd::prelude::*;
use vstd::std_specs::iter::IteratorSpec;

verus! {

/// The colour that scrolling leaves in the band it exposes: black.
pub open spec fn clear_colour() -> Pixel {
    Pixel { b: 0, g: 0, r: 0, channel: 0 }
}

/// The colour of each pixel after the picture has moved up by `amount` rows:
/// what was `amount` rows further down, or the clear colour where that is
/// below the bottom edge.
pub open spec fn scrolled_colours(s: Surface, amount: int) -> spec_fn(int, int) -> Pixel {
    |a: int, b: int|
        if b + amount < s.height {
            s.pixel_at(a, b + amount)
        } else {
            clear_colour()
        }
}

/// The surface after its picture has moved up by `amount` rows.
pub open spec fn scrolled(s: Surface, amount: int) -> Surface {
    s.paint(everywhere(), scrolled_colours(s, amount))
}

/// The mathematical model of a console: what is on the screen, where the
/// cursor stands, and the scale of the font.
pub struct ConsoleState {
    pub surface: Surface,
    pub cursor_x: int,
    pub cursor_y: int,
    pub font_size: int,
}

impl ConsoleState {
    /// The screen is well-formed and the cursor and the font size are
    /// machine numbers.
    pub open spec fn wf(self) -> bool {
        &&& self.surface.wf()
        &&& 0 <= self.cursor_x <= usize::MAX
        &&& 0 <= self.cursor_y <= usize::MAX
        &&& 0 <= self.font_size <= usize::MAX
    }

    /// Width and height of one glyph.
    pub open spec fn span(self) -> int {
        8 * self.font_size
    }

    /// The console after a line feed: the cursor at the left edge, one span
    /// further down. Nothing is drawn. A cursor that would leave the range of
    /// `usize` stays at its largest value.
    pub open spec fn newline(self) -> ConsoleState {
        ConsoleState {
            cursor_x: 0,
            cursor_y: if self.cursor_y + self.span() > usize::MAX {
                usize::MAX as int
            } else {
                self.cursor_y + self.span()
            },
            ..self
        }
    }

    /// The console after one glyph has been written at the cursor: the glyph,
    /// if there is one, is drawn opaque; the cursor moves one span to the
    /// right; if the next glyph would then not fit in the width, the cursor
    /// wraps to the start of the next line; and if after that the next glyph
    /// would not fit in the height, the picture scrolls up by one span and
    /// the cursor moves up with it, though not above the top edge.
    pub open spec fn put_glyph(
        self,
        glyph: Option<Seq<u8>>,
        text: Pixel,
        background: Pixel,
    ) -> ConsoleState {
        let drawn = match glyph {
            Some(rows) => self.surface.paint(
                glyph_cell(self.cursor_x, self.cursor_y, self.font_size),
                glyph_colours(
                    self.cursor_x,
                    self.cursor_y,
                    rows,
                    self.font_size,
                    text,
                    background,
                ),
            ),
            None => self.surface,
        };
        let wraps = self.cursor_x + self.span() + self.span() > self.surface.width;
        let x = if wraps {
            0
        } else {
            self.cursor_x + self.span()
        };
        let y = if wraps {
            self.cursor_y + self.span()
        } else {
            self.cursor_y
        };
        if y + self.span() > self.surface.height {
            ConsoleState {
                surface: scrolled(drawn, self.span()),
                cursor_x: x,
                cursor_y: if y < self.span() {
                    0
                } else {
                    y - self.span()
                },
                ..self
            }
        } else {
            ConsoleState { surface: drawn, cursor_x: x, cursor_y: y, ..self }
        }
    }

    /// The console after one character: a line feed for `'\n'`, and for any
    /// other character its glyph, or the lack of one.
    pub open spec fn put_char(self, c: char, text: Pixel, background: Pixel) -> ConsoleState {
        if c == '\n' {
            self.newline()
        } else {
            self.put_glyph(basic_glyph(c), text, background)
        }
    }

    /// The console after the characters of `chars`, first to last.
    pub open spec fn write(self, chars: Seq<char>, text: Pixel, background: Pixel) -> ConsoleState
        decreases chars.len(),
    {
        if chars.len() == 0 {
            self
        } else {
            self.put_char(chars[0], text, background).write(chars.drop_first(), text, background)
        }
    }
}

/// A text console that draws to the renderer it owns.
#[derive(Debug)]
pub struct Console {
    graphics_api: GraphicsAPI,
    cursor_x: usize,
    cursor_y: usize,
    font_size: usize,
}

impl View for Console {
    type V = ConsoleState;

    closed spec fn view(&self) -> ConsoleState {
        ConsoleState {
            surface: self.graphics_api@,
            cursor_x: self.cursor_x as int,
            cursor_y: self.cursor_y as int,
            font_size: self.font_size as int,
        }
    }
}

/// Whether `a + b + c` is more than `limit`, computed without overflow.
fn sum_exceeds(a: usize, b: usize, c: usize, limit: usize) -> (r: bool)
    ensures
        r == (a + b + c > limit),
{
    match a.checked_add(b) {
        Some(ab) => match ab.checked_add(c) {
            Some(abc) => abc > limit,
            None => true,
        },
        None => true,
    }
}

impl Console {
    /// A console on `graphics_api` with its cursor at the top left corner.
    pub fn new(graphics_api: GraphicsAPI, font_size: usize) -> (console: Self)
        ensures
            console@ == (ConsoleState {
                surface: graphics_api@,
                cursor_x: 0,
                cursor_y: 0,
                font_size: font_size as int,
            }),
            console@.wf(),
    {
        let fb = graphics_api.framebuffer();
        proof {
            use_type_invariant(fb);
        }
        Console { graphics_api, cursor_x: 0, cursor_y: 0, font_size }
    }

    /// The renderer that the console draws to.
    pub fn graphics(&self) -> (api: &GraphicsAPI)
        ensures
            api@ == self@.surface,
    {
        &self.graphics_api
    }

    /// Gives the renderer back.
    pub fn into_graphics(self) -> (api: GraphicsAPI)
        ensures
            api@ == self@.surface,
    {
        self.graphics_api
    }

    /// The cursor, as `(x, y)` in pixels.
    pub fn cursor(&self) -> (at: (usize, usize))
        ensures
            at.0 == self@.cursor_x,
            at.1 == self@.cursor_y,
    {
        (self.cursor_x, self.cursor_y)
    }

    pub fn font_size(&self) -> (n: usize)
        ensures
            n == self@.font_size,
    {
        self.font_size
    }

    /// Puts the cursor at `(x, y)`. Any position is accepted.
    pub fn set_cursor(&mut self, x: usize, y: usize)
        ensures
            final(self)@ == (ConsoleState {
                cursor_x: x as int,
                cursor_y: y as int,
                ..old(self)@
            }),
            final(self)@.wf(),
    {
        let fb = self.graphics_api.framebuffer();
        proof {
            use_type_invariant(fb);
        }
        self.cursor_x = x;
        self.cursor_y = y;
    }

    /// Writes `s` at the cursor, character by character.
    pub fn write_str(&mut self, s: &str, text_color: Pixel, background_color: Pixel)
        ensures
            final(self)@ == old(self)@.write(s@, text_color, background_color),
            final(self)@.wf(),
    {
        broadcast use vstd::string::group_string_axioms;

        let fb = self.graphics_api.framebuffer();
        proof {
            use_type_invariant(fb);
        }
        let mut chars = s.chars();
        loop
            invariant
                self@.wf(),
                chars.obeys_prophetic_iter_laws(),
                chars.decrease() is Some,
                self@.write(chars.remaining(), text_color, background_color) == old(self)@.write(
                    s@,
                    text_color,
                    background_color,
                ),
            ensures
                self@.wf(),
                self@ == old(self)@.write(s@, text_color, background_color),
            decreases chars.decrease()->0,
        {
            match chars.next() {
                Some(c) => {
                    self.write_char(c, text_color, background_color);
                },
                None => {
                    break ;
                },
            }
        }
    }

    /// Writes one character at the cursor: `'\n'` starts a new line, any other
    /// character is drawn and moves the cursor on.
    pub fn write_char(&mut self, c: char, text_color: Pixel, background_color: Pixel)
        ensures
            final(self)@ == old(self)@.put_char(c, text_color, background_color),
            final(self)@.wf(),
    {
        let fb = self.graphics_api.framebuffer();
        proof {
            use_type_invariant(fb);
        }
        if c == '\n' {
            self.cursor_x = 0;
            self.cursor_y = match self.font_size.checked_mul(8) {
                Some(span) => self.cursor_y.saturating_add(span),
                None => usize::MAX,
            };
        } else {
            let glyph = lookup_glyph(c);
            match glyph {
                Some(rows) => self.put_glyph(Some(&rows), text_color, background_color),
                None => self.put_glyph(None, text_color, background_color),
            }
        }
    }

    /// Draws `glyph`, if there is one, at the cursor, and moves the cursor
    /// on: to the right, then to the next line where the next glyph would not
    /// fit in the width, then up with the scrolling picture where it would
    /// not fit in the height.
    pub fn put_glyph(
        &mut self,
        glyph: Option<&[u8; 8]>,
        text_color: Pixel,
        background_color: Pixel,
    )
        ensures
            final(self)@ == old(self)@.put_glyph(
                match glyph {
                    Some(rows) => Some(rows@),
                    None => None,
                },
                text_color,
                background_color,
            ),
            final(self)@.wf(),
    {
        let fb = self.graphics_api.framebuffer();
        proof {
            use_type_invariant(fb);
        }
        if let Some(rows) = glyph {
            self.graphics_api.draw_glyph(
                self.cursor_x,
                self.cursor_y,
                rows,
                text_color,
                background_color,
                self.font_size,
            );
        }
        let width = self.graphics_api.get_width();
        let height = self.graphics_api.get_height();
        match self.font_size.checked_mul(8) {
            Some(span) => {
                let wraps = sum_exceeds(self.cursor_x, span, span, width);
                let scrolls = if wraps {
                    sum_exceeds(self.cursor_y, span, span, height)
                } else {
                    sum_exceeds(self.cursor_y, span, 0, height)
                };
                self.cursor_x = if wraps {
                    0
                } else {
                    self.cursor_x + span
                };
                if scrolls {
                    self.scroll_up(span);
                    if !wraps {
                        self.cursor_y = self.cursor_y.saturating_sub(span);
                    }
                } else if wraps {
                    self.cursor_y = self.cursor_y + span;
                }
            },
            None => {
                // A glyph wider than any framebuffer: it never fits, so the
                // cursor wraps, and the picture scrolls out of sight.
                let ghost drawn = self.graphics_api@;
                self.cursor_x = 0;
                self.scroll_up(usize::MAX);
                proof {
                    lemma_scrolled_away(drawn, usize::MAX as int);
                    lemma_scrolled_away(drawn, old(self)@.span());
                }
            },
        }
    }

    /// Moves the picture up by `lines` rows and fills the band that this
    /// exposes at the bottom with the clear colour.
    pub fn scroll_up(&mut self, lines: usize)
        ensures
            final(self)@ == (ConsoleState {
                surface: scrolled(old(self)@.surface, lines as int),
                ..old(self)@
            }),
            final(self)@.wf(),
    {
        let fb = self.graphics_api.framebuffer();
        proof {
            use_type_invariant(fb);
        }
        let fb_height = self.graphics_api.get_height();
        let fb_width = self.graphics_api.get_width();
        let clear = Pixel { b: 0, g: 0, r: 0, channel: 0 };
        let kept = fb_height.saturating_sub(lines);
        let ghost s = self.graphics_api@;
        // Copy the rows below `lines` to the top of the framebuffer.
        self.graphics_api.copy_rect(0, lines, fb_width, kept, 0, 0, clear);
        // Clear the newly created empty space at the bottom
        self.graphics_api.draw_filled_rectangle(0, kept, fb_width, lines, clear);
        proof {
            let moved = rectangle(0, 0, fb_width as int, kept as int);
            let band = rectangle(0, kept as int, fb_width as int, lines as int);
            lemma_copy_reading_ahead(s, 0, lines as int, fb_width as int, kept as int, 0, 0, clear);
            lemma_paint_twice(
                s,
                moved,
                shifted(s, 0, lines as int, 0, 0, clear),
                band,
                solid(clear),
                everywhere(),
                scrolled_colours(s, lines as int),
            );
            lemma_paint_wf(s, everywhere(), scrolled_colours(s, lines as int));
        }
    }
}

/// Scrolling by the height of the framebuffer or more leaves nothing but the
/// clear colour.
pub proof fn lemma_scrolled_away(s: Surface, amount: int)
    requires
        s.wf(),
        amount >= s.height,
    ensures
        scrolled(s, amount) == s.paint(everywhere(), solid(clear_colour())),
{
    lemma_paint_congruent(
        s,
        everywhere(),
        scrolled_colours(s, amount),
        everywhere(),
        solid(clear_colour()),
    );
}

/// After scrolling, a row of the picture holds what was `amount` rows below
/// it, and the band that scrolling exposed at the bottom holds the clear
/// colour.
pub proof fn lemma_scrolled_pixel(s: Surface, amount: int, x: int, y: int)
    requires
        s.wf(),
        0 <= amount,
        s.in_bounds(x, y),
    ensures
        scrolled(s, amount).get_pixel(x, y) == if y + amount < s.height {
            s.get_pixel(x, y + amount)
        } else {
            Some(s.stored(clear_colour()))
        },
{
    lemma_paint_pixel(s, everywhere(), scrolled_colours(s, amount), x, y);
}

/// Writing keeps a console well-formed.
pub proof fn lemma_write_wf(console: ConsoleState, chars: Seq<char>, text: Pixel, background: Pixel)
    requires
        console.wf(),
    ensures
        console.write(chars, text, background).wf(),
        console.write(chars, text, background).font_size == console.font_size,
        console.write(chars, text, background).surface.width == console.surface.width,
        console.write(chars, text, background).surface.height == console.surface.height,
    decreases chars.len(),
{
    if chars.len() > 0 {
        lemma_put_char_wf(console, chars[0], text, background);
        lemma_write_wf(
            console.put_char(chars[0], text, background),
            chars.drop_first(),
            text,
            background,
        );
    }
}

/// Writing one character keeps a console well-formed, its geometry and its
/// font size.
pub proof fn lemma_put_char_wf(console: ConsoleState, c: char, text: Pixel, background: Pixel)
    requires
        console.wf(),
    ensures
        console.put_char(c, text, background).wf(),
        console.put_char(c, text, background).font_size == console.font_size,
        console.put_char(c, text, background).surface.width == console.surface.width,
        console.put_char(c, text, background).surface.height == console.surface.height,
{
    if c != '\n' {
        let drawn = match basic_glyph(c) {
            Some(rows) => console.surface.paint(
                glyph_cell(console.cursor_x, console.cursor_y, console.font_size),
                glyph_colours(
                    console.cursor_x,
                    console.cursor_y,
                    rows,
                    console.font_size,
                    text,
                    background,
                ),
            ),
            None => console.surface,
        };
        match basic_glyph(c) {
            Some(rows) => {
                lemma_paint_wf(
                    console.surface,
                    glyph_cell(console.cursor_x, console.cursor_y, console.font_size),
                    glyph_colours(
                        console.cursor_x,
                        console.cursor_y,
                        rows,
                        console.font_size,
                        text,
                        background,
                    ),
                );
            },
            None => {},
        }
        lemma_paint_wf(drawn, everywhere(), scrolled_colours(drawn, console.span()));
    }
}

/// Writing a text in two parts is writing it in one.
pub proof fn lemma_write_in_parts(
    console: ConsoleState,
    first: Seq<char>,
    second: Seq<char>,
    text: Pixel,
    background: Pixel,
)
    ensures
        console.write(first, text, background).write(second, text, background) == console.write(
            first + second,
            text,
            background,
        ),
    decreases first.len(),
{
    if first.len() == 0 {
        assert(first + second =~= second);
    } else {
        assert((first + second).drop_first() =~= first.drop_first() + second);
        lemma_write_in_parts(
            console.put_char(first[0], text, background),
            first.drop_first(),
            second,
            text,
            background,
        );
    }
}

} // verus!
