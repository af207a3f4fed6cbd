use font8x8::{UnicodeFonts, BASIC_FONTS};
use gtmos_kernel::console::Console;
use gtmos_kernel::drivers::framebuffer::{Framebuffer, FramebufferIndex, FramebufferMemory, Pixel};
use gtmos_kernel::graphics::GraphicsAPI;

const BLACK: Pixel = Pixel { b: 0, g: 0, r: 0, channel: 0 };
const WHITE: Pixel = Pixel { b: 0xFF, g: 0xFF, r: 0xFF, channel: 0 };
const TEAL: Pixel = Pixel { b: 0x80, g: 0x80, r: 0, channel: 0 };
const GREY: Pixel = Pixel { b: 0x11, g: 0x11, r: 0x11, channel: 0x11 };

fn console(width: usize, height: usize, font_size: usize) -> Console {
    let fb = FramebufferMemory::new(vec![0x11u8; width * height * 4], width, height, 4).unwrap();
    Console::new(GraphicsAPI::new(fb), font_size)
}

fn read(console: &Console, x: usize, y: usize) -> Option<Pixel> {
    Framebuffer::get_pixel(console.graphics().framebuffer(), FramebufferIndex { x, y })
}

/// Whether the cell of `span` pixels a side at `(x, y)` shows `c` in white on teal.
fn shows(console: &Console, x: usize, y: usize, c: char, scale: usize) -> bool {
    let glyph = BASIC_FONTS.get(c).unwrap();
    for gy in 0..8 * scale {
        for gx in 0..8 * scale {
            let set = glyph[gy / scale] & (1 << (gx / scale)) != 0;
            if read(console, x + gx, y + gy) != Some(if set { WHITE } else { TEAL }) {
                return false;
            }
        }
    }
    true
}

/// Whether every pixel of the rows `from..to` is `colour`.
fn rows_are(console: &Console, from: usize, to: usize, colour: Pixel) -> bool {
    let width = console.graphics().get_width();
    for y in from..to {
        for x in 0..width {
            if read(console, x, y) != Some(colour) {
                return false;
            }
        }
    }
    true
}

#[test]
fn new_console_starts_at_the_origin() {
    let c = console(80, 64, 2);
    assert_eq!(c.cursor(), (0, 0));
    assert_eq!(c.font_size(), 2);
    assert!(rows_are(&c, 0, 64, GREY));
}

#[test]
fn set_cursor_accepts_any_position() {
    let mut c = console(80, 64, 1);
    c.set_cursor(13, 7);
    assert_eq!(c.cursor(), (13, 7));
    c.set_cursor(usize::MAX, usize::MAX);
    assert_eq!(c.cursor(), (usize::MAX, usize::MAX));
    assert!(rows_are(&c, 0, 64, GREY));
}

#[test]
fn a_character_is_drawn_and_the_cursor_advances() {
    let mut c = console(80, 64, 1);
    c.write_str("A", WHITE, TEAL);
    assert_eq!(c.cursor(), (8, 0));
    assert!(shows(&c, 0, 0, 'A', 1));
    assert_eq!(read(&c, 8, 0), Some(GREY));
    assert_eq!(read(&c, 0, 8), Some(GREY));
}

#[test]
fn characters_follow_each_other() {
    let mut c = console(80, 64, 1);
    c.write_str("Agj", WHITE, TEAL);
    assert_eq!(c.cursor(), (24, 0));
    assert!(shows(&c, 0, 0, 'A', 1));
    assert!(shows(&c, 8, 0, 'g', 1));
    assert!(shows(&c, 16, 0, 'j', 1));
}

#[test]
fn the_cursor_advances_by_the_scaled_glyph() {
    let mut c = console(80, 64, 2);
    c.write_str("Hi", WHITE, TEAL);
    assert_eq!(c.cursor(), (32, 0));
    assert!(shows(&c, 0, 0, 'H', 2));
    assert!(shows(&c, 16, 0, 'i', 2));
}

#[test]
fn newline_moves_to_the_start_of_the_next_line_and_draws_nothing() {
    let mut c = console(80, 64, 1);
    c.set_cursor(24, 8);
    c.write_str("\n", WHITE, TEAL);
    assert_eq!(c.cursor(), (0, 16));
    assert!(rows_are(&c, 0, 64, GREY));
}

#[test]
fn text_with_a_newline() {
    let mut c = console(80, 64, 1);
    c.write_str("A\nB", WHITE, TEAL);
    assert_eq!(c.cursor(), (8, 8));
    assert!(shows(&c, 0, 0, 'A', 1));
    assert!(shows(&c, 0, 8, 'B', 1));
}

#[test]
fn eleven_characters_wrap_once_after_the_tenth() {
    let mut c = console(80, 64, 1);
    c.write_str("012345678", WHITE, TEAL);
    assert_eq!(c.cursor(), (72, 0));
    c.write_str("9", WHITE, TEAL);
    assert_eq!(c.cursor(), (0, 8));
    assert!(shows(&c, 72, 0, '9', 1));
    c.write_str("a", WHITE, TEAL);
    assert_eq!(c.cursor(), (8, 8));
    assert!(shows(&c, 0, 8, 'a', 1));
    for (i, digit) in "0123456789".chars().enumerate() {
        assert!(shows(&c, i * 8, 0, digit, 1));
    }
    assert!(rows_are(&c, 16, 64, GREY));
}

#[test]
fn eleven_characters_in_one_call() {
    let mut c = console(80, 64, 1);
    c.write_str("0123456789a", WHITE, TEAL);
    assert_eq!(c.cursor(), (8, 8));
    assert!(shows(&c, 72, 0, '9', 1));
    assert!(shows(&c, 0, 8, 'a', 1));
}

#[test]
fn wrap_happens_when_the_next_glyph_would_not_fit() {
    // 20 pixels hold two glyphs of 8; the third would end at 24.
    let mut c = console(20, 64, 1);
    c.write_str("ab", WHITE, TEAL);
    assert_eq!(c.cursor(), (0, 8));
    assert!(shows(&c, 0, 0, 'a', 1));
    assert!(shows(&c, 8, 0, 'b', 1));
}

#[test]
fn filling_the_last_line_scrolls_the_picture_up() {
    let mut c = console(16, 16, 1);
    c.write_str("ab", WHITE, TEAL);
    assert_eq!(c.cursor(), (0, 8));
    c.write_str("c", WHITE, TEAL);
    assert_eq!(c.cursor(), (8, 8));
    // The last glyph of the last line wraps and, with that, scrolls.
    c.write_str("d", WHITE, TEAL);
    assert_eq!(c.cursor(), (0, 8));
    assert!(shows(&c, 0, 0, 'c', 1));
    assert!(shows(&c, 8, 0, 'd', 1));
    assert!(rows_are(&c, 8, 16, BLACK));
}

#[test]
fn lines_beyond_the_height_scroll() {
    let mut c = console(80, 24, 1);
    c.write_str("one\ntwo\nsix\n", WHITE, TEAL);
    // Line feeds alone do not scroll: the cursor is below the last line.
    assert_eq!(c.cursor(), (0, 24));
    assert!(shows(&c, 0, 16, 's', 1));
    c.write_str("x", WHITE, TEAL);
    // The glyph was drawn below the edge, and the picture moved up one line.
    assert_eq!(c.cursor(), (8, 16));
    assert!(shows(&c, 0, 0, 't', 1));
    assert!(shows(&c, 8, 0, 'w', 1));
    assert!(shows(&c, 0, 8, 's', 1));
    assert!(shows(&c, 8, 8, 'i', 1));
    assert!(rows_are(&c, 16, 24, BLACK));
}

#[test]
fn scroll_up_moves_rows_and_clears_the_band() {
    let fb = FramebufferMemory::new(vec![0u8; 3 * 5 * 4], 3, 5, 4).unwrap();
    let mut api = GraphicsAPI::new(fb);
    for y in 0..5 {
        api.draw_filled_rectangle(0, y, 3, 1, Pixel { b: y as u8 + 1, g: 0, r: 0, channel: 9 });
    }
    let mut c = Console::new(api, 1);
    c.set_cursor(1, 2);
    c.scroll_up(2);
    assert_eq!(c.cursor(), (1, 2));
    for y in 0..3 {
        assert!(rows_are(&c, y, y + 1, Pixel { b: y as u8 + 3, g: 0, r: 0, channel: 9 }));
    }
    assert!(rows_are(&c, 3, 5, BLACK));
}

#[test]
fn scroll_up_by_nothing_changes_nothing() {
    let mut c = console(8, 8, 1);
    c.scroll_up(0);
    assert!(rows_are(&c, 0, 8, GREY));
}

#[test]
fn scroll_up_by_the_height_or_more_clears_the_screen() {
    let mut c = console(8, 8, 1);
    c.scroll_up(8);
    assert!(rows_are(&c, 0, 8, BLACK));
    let mut c = console(8, 8, 1);
    c.scroll_up(usize::MAX);
    assert!(rows_are(&c, 0, 8, BLACK));
}

#[test]
fn a_glyph_taller_than_the_screen_scrolls_everything_away() {
    let mut c = console(32, 8, 2);
    c.write_str("A", WHITE, TEAL);
    // 16 rows do not fit in 8: the picture scrolls by 16 and the cursor stays at the top.
    assert_eq!(c.cursor(), (16, 0));
    assert!(rows_are(&c, 0, 8, BLACK));
}

#[test]
fn a_character_without_a_glyph_still_moves_the_cursor() {
    let mut c = console(80, 64, 1);
    c.write_str("é", WHITE, TEAL);
    assert_eq!(c.cursor(), (8, 0));
    assert!(rows_are(&c, 0, 64, GREY));
}

#[test]
fn font_size_zero_draws_nothing_and_stays() {
    let mut c = console(80, 64, 0);
    c.write_str("abc\n", WHITE, TEAL);
    assert_eq!(c.cursor(), (0, 0));
    assert!(rows_are(&c, 0, 64, GREY));
}

#[test]
fn a_cursor_at_the_largest_row_stays_there_on_a_line_feed() {
    let mut c = console(8, 8, 1);
    c.set_cursor(3, usize::MAX - 2);
    c.write_str("\n", WHITE, TEAL);
    assert_eq!(c.cursor(), (0, usize::MAX));
}

#[test]
fn a_huge_font_wraps_and_clears() {
    let mut c = console(8, 8, usize::MAX);
    c.set_cursor(2, 3);
    c.write_str("A", WHITE, TEAL);
    assert_eq!(c.cursor(), (0, 3));
    assert!(rows_are(&c, 0, 8, BLACK));
}

#[test]
fn write_char_and_put_glyph_agree_with_write_str() {
    let mut a = console(40, 24, 1);
    let mut b = console(40, 24, 1);
    let mut d = console(40, 24, 1);
    a.write_str("Hi\nyou", WHITE, TEAL);
    for ch in "Hi\nyou".chars() {
        b.write_char(ch, WHITE, TEAL);
        if ch == '\n' {
            d.write_char(ch, WHITE, TEAL);
        } else {
            let glyph = BASIC_FONTS.get(ch).unwrap();
            d.put_glyph(Some(&glyph), WHITE, TEAL);
        }
    }
    assert_eq!(a.cursor(), (24, 8));
    assert_eq!(b.cursor(), (24, 8));
    assert_eq!(d.cursor(), (24, 8));
    let picture = a.into_graphics().into_framebuffer().into_buffer();
    assert_eq!(b.into_graphics().into_framebuffer().into_buffer(), picture);
    assert_eq!(d.into_graphics().into_framebuffer().into_buffer(), picture);
}

#[test]
fn put_glyph_without_a_glyph_only_moves_the_cursor() {
    let mut c = console(80, 64, 1);
    c.put_glyph(None, WHITE, TEAL);
    assert_eq!(c.cursor(), (8, 0));
    assert!(rows_are(&c, 0, 64, GREY));
}

#[test]
fn writing_in_parts_is_writing_at_once() {
    let mut whole = console(24, 24, 1);
    let mut parts = console(24, 24, 1);
    whole.write_str("abc\ndefgh\nij", WHITE, TEAL);
    parts.write_str("abc\nde", WHITE, TEAL);
    parts.write_str("", WHITE, TEAL);
    parts.write_str("fgh\nij", WHITE, TEAL);
    assert_eq!(whole.cursor(), parts.cursor());
    assert_eq!(
        whole.into_graphics().into_framebuffer().into_buffer(),
        parts.into_graphics().into_framebuffer().into_buffer()
    );
}
