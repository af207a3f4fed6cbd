use gtmos_kernel::drivers::framebuffer::{Framebuffer, FramebufferIndex, FramebufferMemory, Pixel};

fn blank(width: usize, height: usize, bpp: usize) -> FramebufferMemory {
    FramebufferMemory::new(vec![0u8; width * height * bpp], width, height, bpp).unwrap()
}

fn at(x: usize, y: usize) -> FramebufferIndex {
    FramebufferIndex { x, y }
}

const TEAL: Pixel = Pixel { b: 0x80, g: 0x81, r: 0x01, channel: 0x7F };

#[test]
fn new_accepts_a_buffer_of_the_right_length() {
    let fb = FramebufferMemory::new(vec![7u8; 4 * 3 * 4], 4, 3, 4).unwrap();
    assert_eq!(fb.width(), 4);
    assert_eq!(fb.height(), 3);
    assert_eq!(fb.bytes_per_pixel(), 4);
    assert_eq!(fb.buffer(), &[7u8; 48][..]);
}

#[test]
fn new_rejects_a_buffer_of_the_wrong_length() {
    assert!(FramebufferMemory::new(vec![0u8; 47], 4, 3, 4).is_none());
    assert!(FramebufferMemory::new(vec![0u8; 49], 4, 3, 4).is_none());
    assert!(FramebufferMemory::new(vec![0u8; 48], 4, 3, 3).is_none());
}

#[test]
fn new_rejects_a_geometry_that_overflows() {
    assert!(FramebufferMemory::new(Vec::new(), usize::MAX, 2, 1).is_none());
    assert!(FramebufferMemory::new(Vec::new(), usize::MAX, 2, 0).is_none());
    assert!(FramebufferMemory::new(Vec::new(), usize::MAX, 1, 2).is_none());
}

#[test]
fn new_accepts_an_empty_framebuffer() {
    assert!(FramebufferMemory::new(Vec::new(), 0, 5, 4).is_some());
    assert!(FramebufferMemory::new(Vec::new(), 5, 5, 0).is_some());
}

#[test]
fn into_buffer_gives_the_bytes_back() {
    let mut fb = blank(2, 1, 4);
    Framebuffer::set_pixel(&mut fb, TEAL, at(1, 0));
    assert_eq!(fb.into_buffer(), vec![0, 0, 0, 0, 0x80, 0x81, 0x01, 0x7F]);
}

#[test]
fn index_in_bounds_is_strict_on_both_axes() {
    let fb = blank(4, 3, 4);
    assert!(Framebuffer::index_in_bounds(&fb, &at(0, 0)));
    assert!(Framebuffer::index_in_bounds(&fb, &at(3, 2)));
    assert!(!Framebuffer::index_in_bounds(&fb, &at(4, 2)));
    assert!(!Framebuffer::index_in_bounds(&fb, &at(3, 3)));
    assert!(!Framebuffer::index_in_bounds(&fb, &at(usize::MAX, 0)));
}

#[test]
fn index_to_offset_is_row_major() {
    let fb = blank(4, 3, 4);
    assert_eq!(Framebuffer::index_to_offset(&fb, at(0, 0)), Some(0));
    assert_eq!(Framebuffer::index_to_offset(&fb, at(1, 0)), Some(4));
    assert_eq!(Framebuffer::index_to_offset(&fb, at(2, 1)), Some((1 * 4 + 2) * 4));
    assert_eq!(Framebuffer::index_to_offset(&fb, at(3, 2)), Some(44));
    assert_eq!(Framebuffer::index_to_offset(&fb, at(4, 0)), None);
    assert_eq!(Framebuffer::index_to_offset(&fb, at(0, 3)), None);
}

#[test]
fn set_pixel_writes_blue_green_red_alpha_in_that_order() {
    let mut fb = blank(4, 3, 4);
    Framebuffer::set_pixel(&mut fb, TEAL, at(2, 1));
    let mut expected = vec![0u8; 48];
    expected[24] = 0x80;
    expected[25] = 0x81;
    expected[26] = 0x01;
    expected[27] = 0x7F;
    assert_eq!(fb.buffer(), &expected[..]);
}

#[test]
fn set_pixel_then_get_pixel_returns_the_same_channels() {
    let mut fb = blank(5, 4, 4);
    for y in 0..4 {
        for x in 0..5 {
            let p = Pixel { b: x as u8, g: y as u8, r: (x + y) as u8, channel: 0xAA };
            Framebuffer::set_pixel(&mut fb, p, at(x, y));
            assert_eq!(Framebuffer::get_pixel(&fb, at(x, y)), Some(p));
        }
    }
    assert_eq!(
        Framebuffer::get_pixel(&fb, at(3, 2)),
        Some(Pixel { b: 3, g: 2, r: 5, channel: 0xAA })
    );
}

#[test]
fn set_pixel_leaves_the_other_pixels_alone() {
    let mut fb = blank(3, 3, 4);
    Framebuffer::set_pixel(&mut fb, TEAL, at(1, 1));
    for y in 0..3 {
        for x in 0..3 {
            if (x, y) != (1, 1) {
                assert_eq!(
                    Framebuffer::get_pixel(&fb, at(x, y)),
                    Some(Pixel { b: 0, g: 0, r: 0, channel: 0 })
                );
            }
        }
    }
}

#[test]
fn set_pixel_out_of_bounds_leaves_the_buffer_unmodified() {
    let mut fb = FramebufferMemory::new(vec![9u8; 4 * 3 * 4], 4, 3, 4).unwrap();
    Framebuffer::set_pixel(&mut fb, TEAL, at(4, 0));
    Framebuffer::set_pixel(&mut fb, TEAL, at(0, 3));
    Framebuffer::set_pixel(&mut fb, TEAL, at(4, 3));
    Framebuffer::set_pixel(&mut fb, TEAL, at(usize::MAX, usize::MAX));
    assert_eq!(fb.buffer(), &[9u8; 48][..]);
}

#[test]
fn get_pixel_out_of_bounds_returns_nothing() {
    let fb = blank(4, 3, 4);
    assert_eq!(Framebuffer::get_pixel(&fb, at(4, 0)), None);
    assert_eq!(Framebuffer::get_pixel(&fb, at(0, 3)), None);
    assert_eq!(Framebuffer::get_pixel(&fb, at(usize::MAX, 1)), None);
}

#[test]
fn three_bytes_per_pixel_store_no_alpha() {
    let mut fb = blank(2, 2, 3);
    Framebuffer::set_pixel(&mut fb, TEAL, at(1, 1));
    assert_eq!(fb.buffer(), &[0, 0, 0, 0, 0, 0, 0, 0, 0, 0x80, 0x81, 0x01][..]);
    assert_eq!(
        Framebuffer::get_pixel(&fb, at(1, 1)),
        Some(Pixel { b: 0x80, g: 0x81, r: 0x01, channel: 0 })
    );
    Framebuffer::set_pixel(&mut fb, TEAL, at(0, 0));
    assert_eq!(fb.buffer(), &[0x80, 0x81, 0x01, 0, 0, 0, 0, 0, 0, 0x80, 0x81, 0x01][..]);
}

#[test]
fn wide_pixels_keep_their_padding() {
    let mut fb = FramebufferMemory::new(vec![5u8; 2 * 6], 2, 1, 6).unwrap();
    Framebuffer::set_pixel(&mut fb, TEAL, at(1, 0));
    assert_eq!(fb.buffer(), &[5, 5, 5, 5, 5, 5, 0x80, 0x81, 0x01, 0x7F, 5, 5][..]);
    assert_eq!(Framebuffer::get_pixel(&fb, at(1, 0)), Some(TEAL));
}

#[test]
fn fill_region_writes_the_pattern_into_every_chunk() {
    let mut region = [1u8; 12];
    Framebuffer::fill_region(&mut region, TEAL, 4);
    assert_eq!(
        region,
        [0x80, 0x81, 0x01, 0x7F, 0x80, 0x81, 0x01, 0x7F, 0x80, 0x81, 0x01, 0x7F]
    );
}

#[test]
fn fill_region_with_three_byte_chunks() {
    let mut region = [1u8; 6];
    Framebuffer::fill_region(&mut region, TEAL, 3);
    assert_eq!(region, [0x80, 0x81, 0x01, 0x80, 0x81, 0x01]);
}

#[test]
fn fill_region_with_wide_chunks_keeps_the_padding() {
    let mut region = [1u8; 10];
    Framebuffer::fill_region(&mut region, TEAL, 5);
    assert_eq!(region, [0x80, 0x81, 0x01, 0x7F, 1, 0x80, 0x81, 0x01, 0x7F, 1]);
}

#[test]
fn fill_region_is_a_no_op_on_a_ragged_region() {
    let mut region = [1u8; 10];
    Framebuffer::fill_region(&mut region, TEAL, 4);
    assert_eq!(region, [1u8; 10]);
    Framebuffer::fill_region(&mut region, TEAL, 0);
    assert_eq!(region, [1u8; 10]);
}

#[test]
fn fill_region_on_an_empty_region() {
    let mut region: [u8; 0] = [];
    Framebuffer::fill_region(&mut region, TEAL, 4);
    assert_eq!(region.len(), 0);
}

#[test]
fn fill_paints_every_pixel() {
    let mut fb = blank(3, 2, 4);
    Framebuffer::fill(&mut fb, TEAL);
    for y in 0..2 {
        for x in 0..3 {
            assert_eq!(Framebuffer::get_pixel(&fb, at(x, y)), Some(TEAL));
        }
    }
    assert_eq!(fb.buffer().len(), 24);
}
