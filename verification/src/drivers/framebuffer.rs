//! The framebuffer memory model: a flat, row-major byte buffer of pixels and
//! the single choke point that turns a logical `(x, y)` into a byte offset.
//!
//! A pixel occupies `bytes_per_pixel` consecutive bytes. Its channels are laid
//! out in the order the graphics hardware expects: blue, green, red, and then
//! the alpha/unused byte. Only the first four bytes of a pixel carry channels;
//! a framebuffer with fewer than four bytes per pixel stores only the channels
//! that fit, and reads the missing ones back as zero.

use vstd::prelude::*;

verus! {

/// A colour value in the byte order of the hardware.
#[derive(Debug, Clone, Copy, PartialEq, Eq, Structural)]
pub struct Pixel {
    /// blue channel
    pub b: u8,
    /// green channel
    pub g: u8,
    /// red channel
    pub r: u8,
    /// this byte is 0 in BGR mode, in BGRA, it is alpha.
    pub channel: u8,
}

/// A logical coordinate. Nothing guarantees that it lies inside a framebuffer:
/// bounds are checked where it is turned into a byte offset.
#[derive(Debug, Clone, Copy, PartialEq, Eq, Structural)]
pub struct FramebufferIndex {
    pub x: usize,
    pub y: usize,
}

/// The byte that channel number `c` of `p` puts on the wire.
pub open spec fn channel_byte(p: Pixel, c: int) -> u8 {
    if c == 0 {
        p.b
    } else if c == 1 {
        p.g
    } else if c == 2 {
        p.r
    } else {
        p.channel
    }
}

/// `bytes` with the first `n` channels of `p` written at `off`.
pub open spec fn write_channels(bytes: Seq<u8>, off: int, n: int, p: Pixel) -> Seq<u8> {
    Seq::new(
        bytes.len(),
        |i: int|
            if off <= i < off + n {
                channel_byte(p, i - off)
            } else {
                bytes[i]
            },
    )
}

/// The pixel whose first `n` channels are stored at `off`; channels that are
/// not stored read as zero.
pub open spec fn read_channels(bytes: Seq<u8>, off: int, n: int) -> Pixel {
    Pixel {
        b: if 0 < n { bytes[off] } else { 0 },
        g: if 1 < n { bytes[off + 1] } else { 0 },
        r: if 2 < n { bytes[off + 2] } else { 0 },
        channel: if 3 < n { bytes[off + 3] } else { 0 },
    }
}

/// What `fill_region` leaves in a byte region: the channel pattern of `p` in
/// every chunk of `bps` bytes, provided the region is a whole number of chunks.
pub open spec fn fill_pattern(bytes: Seq<u8>, p: Pixel, bps: int) -> Seq<u8> {
    if bps > 0 && (bytes.len() as int) % bps == 0 {
        Seq::new(
            bytes.len(),
            |i: int|
                if i % bps < 4 {
                    channel_byte(p, i % bps)
                } else {
                    bytes[i]
                },
        )
    } else {
        bytes
    }
}

/// The colour function that is `p` everywhere.
pub open spec fn solid(p: Pixel) -> spec_fn(int, int) -> Pixel {
    |x: int, y: int| p
}

/// The region that holds the single point `(x, y)`.
pub open spec fn point(x: int, y: int) -> spec_fn(int, int) -> bool {
    |a: int, b: int| a == x && b == y
}

/// The region that holds every point.
pub open spec fn everywhere() -> spec_fn(int, int) -> bool {
    |a: int, b: int| true
}

/// The mathematical model of a framebuffer: its geometry and its bytes.
pub struct Surface {
    pub width: nat,
    pub height: nat,
    pub bytes_per_pixel: nat,
    pub bytes: Seq<u8>,
}

impl Surface {
    /// The buffer holds exactly `width * height` pixels, and the geometry,
    /// the pixels and the bytes can all be counted by the machine.
    pub open spec fn wf(self) -> bool {
        &&& self.bytes.len() == self.width * self.height * self.bytes_per_pixel
        &&& self.width <= usize::MAX
        &&& self.height <= usize::MAX
        &&& self.bytes_per_pixel <= usize::MAX
        &&& self.width * self.height <= usize::MAX
        &&& self.bytes.len() <= usize::MAX
    }

    pub open spec fn in_bounds(self, x: int, y: int) -> bool {
        0 <= x < self.width && 0 <= y < self.height
    }

    /// Byte offset of the pixel at `(x, y)`, row-major.
    pub open spec fn offset_of(self, x: int, y: int) -> int {
        (y * self.width + x) * self.bytes_per_pixel
    }

    /// Number of channels a pixel of this framebuffer stores.
    pub open spec fn channels(self) -> int {
        if self.bytes_per_pixel < 4 {
            self.bytes_per_pixel as int
        } else {
            4
        }
    }

    /// `p` as it reads back after having been stored in this framebuffer.
    pub open spec fn stored(self, p: Pixel) -> Pixel {
        Pixel {
            b: if 0 < self.channels() { p.b } else { 0 },
            g: if 1 < self.channels() { p.g } else { 0 },
            r: if 2 < self.channels() { p.r } else { 0 },
            channel: if 3 < self.channels() { p.channel } else { 0 },
        }
    }

    /// The pixel stored at `(x, y)`; meaningful for coordinates in bounds.
    pub open spec fn pixel_at(self, x: int, y: int) -> Pixel {
        read_channels(self.bytes, self.offset_of(x, y), self.channels())
    }

    pub open spec fn get_pixel(self, x: int, y: int) -> Option<Pixel> {
        if self.in_bounds(x, y) {
            Some(self.pixel_at(x, y))
        } else {
            None
        }
    }

    pub open spec fn set_pixel(self, p: Pixel, x: int, y: int) -> Surface {
        if self.in_bounds(x, y) {
            Surface {
                bytes: write_channels(self.bytes, self.offset_of(x, y), self.channels(), p),
                ..self
            }
        } else {
            self
        }
    }

    /// The surface after the channel pattern of `p` has been written into
    /// every pixel.
    pub open spec fn fill(self, p: Pixel) -> Surface {
        Surface { bytes: fill_pattern(self.bytes, p, self.bytes_per_pixel as int), ..self }
    }

    /// Column of the pixel that byte `i` belongs to.
    pub open spec fn byte_x(self, i: int) -> int {
        (i / self.bytes_per_pixel as int) % self.width as int
    }

    /// Row of the pixel that byte `i` belongs to.
    pub open spec fn byte_y(self, i: int) -> int {
        (i / self.bytes_per_pixel as int) / self.width as int
    }

    /// Position of byte `i` inside its pixel.
    pub open spec fn byte_channel(self, i: int) -> int {
        i % self.bytes_per_pixel as int
    }

    /// The surface after every pixel `(x, y)` of `region` that lies in bounds
    /// has been overwritten with `colour(x, y)`. Nothing else changes.
    pub open spec fn paint(
        self,
        region: spec_fn(int, int) -> bool,
        colour: spec_fn(int, int) -> Pixel,
    ) -> Surface {
        Surface {
            bytes: Seq::new(
                self.bytes.len(),
                |i: int|
                    if self.bytes_per_pixel > 0 && self.byte_channel(i) < 4 && region(
                        self.byte_x(i),
                        self.byte_y(i),
                    ) {
                        channel_byte(colour(self.byte_x(i), self.byte_y(i)), self.byte_channel(i))
                    } else {
                        self.bytes[i]
                    },
            ),
            ..self
        }
    }
}

/// A framebuffer: the byte buffer together with its geometry.
///
/// The fields are private so that the buffer length always matches the
/// geometry; [`FramebufferMemory::new`] is the only way to make one.
#[derive(Debug)]
pub struct FramebufferMemory {
    /// the raw bytes, row-major
    buffer: Vec<u8>,
    width: usize,
    height: usize,
    bytes_per_pixel: usize,
}

impl View for FramebufferMemory {
    type V = Surface;

    closed spec fn view(&self) -> Surface {
        Surface {
            width: self.width as nat,
            height: self.height as nat,
            bytes_per_pixel: self.bytes_per_pixel as nat,
            bytes: self.buffer@,
        }
    }
}

impl FramebufferMemory {
    /// Every framebuffer is well-formed: the buffer holds exactly its pixels.
    #[verifier::type_invariant]
    pub open spec fn inv(&self) -> bool {
        self@.wf()
    }

    /// Wraps `buffer` as a framebuffer of the given geometry. Returns `None`
    /// exactly when the buffer length is not `width * height *
    /// bytes_per_pixel` (or when the pixel count overflows `usize`).
    pub fn new(buffer: Vec<u8>, width: usize, height: usize, bytes_per_pixel: usize) -> (r: Option<
        Self,
    >)
        ensures
            match r {
                Some(fb) => fb@.wf() && fb@ == (Surface {
                    width: width as nat,
                    height: height as nat,
                    bytes_per_pixel: bytes_per_pixel as nat,
                    bytes: buffer@,
                }),
                None => !(Surface {
                    width: width as nat,
                    height: height as nat,
                    bytes_per_pixel: bytes_per_pixel as nat,
                    bytes: buffer@,
                }).wf(),
            },
    {
        assert(buffer.len() == buffer@.len());
        match width.checked_mul(height) {
            Some(pixels) => match pixels.checked_mul(bytes_per_pixel) {
                Some(len) => if len == buffer.len() {
                    Some(FramebufferMemory { buffer, width, height, bytes_per_pixel })
                } else {
                    None
                },
                None => None,
            },
            None => None,
        }
    }

    pub fn width(&self) -> (w: usize)
        ensures
            w == self@.width,
    {
        self.width
    }

    pub fn height(&self) -> (h: usize)
        ensures
            h == self@.height,
    {
        self.height
    }

    pub fn bytes_per_pixel(&self) -> (n: usize)
        ensures
            n == self@.bytes_per_pixel,
    {
        self.bytes_per_pixel
    }

    /// The raw bytes, as the hardware would scan them out.
    pub fn buffer(&self) -> (bytes: &[u8])
        ensures
            bytes@ == self@.bytes,
    {
        self.buffer.as_slice()
    }

    /// Gives the byte buffer back.
    pub fn into_buffer(self) -> (bytes: Vec<u8>)
        ensures
            bytes@ == self@.bytes,
    {
        self.buffer
    }
}

/// Set of control functions used for writing pixels to frame buffer
pub struct Framebuffer;

impl Framebuffer {
    #[inline]
    pub fn index_in_bounds(fb: &FramebufferMemory, index: &FramebufferIndex) -> (b: bool)
        ensures
            b == fb@.in_bounds(index.x as int, index.y as int),
    {
        index.x < fb.width && index.y < fb.height
    }

    /// The one place where a coordinate becomes a byte offset.
    #[inline]
    pub fn index_to_offset(fb: &FramebufferMemory, index: FramebufferIndex) -> (r: Option<usize>)
        ensures
            r == if fb@.in_bounds(index.x as int, index.y as int) {
                Some(fb@.offset_of(index.x as int, index.y as int) as usize)
            } else {
                None
            },
            r is Some ==> r->0 == fb@.offset_of(index.x as int, index.y as int) && r->0
                + fb@.bytes_per_pixel <= fb@.bytes.len(),
    {
        proof {
            use_type_invariant(fb);
        }
        if Framebuffer::index_in_bounds(fb, &index) {
            proof {
                lemma_offset_fits(fb@, index.x as int, index.y as int);
            }
            Some((index.y * fb.width + index.x) * fb.bytes_per_pixel)
        } else {
            None
        }
    }

    /// Writes the channels of `pixel` at `index`; does nothing when `index`
    /// is out of bounds.
    #[inline]
    pub fn set_pixel(fb: &mut FramebufferMemory, pixel: Pixel, index: FramebufferIndex)
        ensures
            final(fb)@ == old(fb)@.set_pixel(pixel, index.x as int, index.y as int),
            final(fb)@.wf(),
    {
        proof {
            use_type_invariant(&*fb);
        }
        if let Some(offset) = Framebuffer::index_to_offset(fb, index) {
            let n = fb.bytes_per_pixel;
            if n > 0 {
                fb.buffer[offset] = pixel.b;
            }
            if n > 1 {
                fb.buffer[offset + 1] = pixel.g;
            }
            if n > 2 {
                fb.buffer[offset + 2] = pixel.r;
            }
            if n > 3 {
                fb.buffer[offset + 3] = pixel.channel;
            }
            assert(fb.buffer@ =~= write_channels(
                old(fb).buffer@,
                offset as int,
                old(fb)@.channels(),
                pixel,
            ));
        }
    }

    /// Reads the pixel at `index`; `None` when `index` is out of bounds.
    #[inline]
    pub fn get_pixel(fb: &FramebufferMemory, index: FramebufferIndex) -> (r: Option<Pixel>)
        ensures
            r == fb@.get_pixel(index.x as int, index.y as int),
    {
        proof {
            use_type_invariant(fb);
        }
        if let Some(offset) = Framebuffer::index_to_offset(fb, index) {
            let n = fb.bytes_per_pixel;
            return Some(
                Pixel {
                    b: if n > 0 { fb.buffer[offset] } else { 0 },
                    g: if n > 1 { fb.buffer[offset + 1] } else { 0 },
                    r: if n > 2 { fb.buffer[offset + 2] } else { 0 },
                    channel: if n > 3 { fb.buffer[offset + 3] } else { 0 },
                },
            );
        }
        None
    }

    /// Writes `pixel` into every pixel of the framebuffer.
    pub fn fill(fb: &mut FramebufferMemory, pixel: Pixel)
        ensures
            final(fb)@ == old(fb)@.fill(pixel),
            final(fb)@ == old(fb)@.paint(everywhere(), solid(pixel)),
            final(fb)@.wf(),
    {
        proof {
            use_type_invariant(&*fb);
        }
        let bps = fb.bytes_per_pixel;
        let len = fb.buffer.len();
        if bps == 0 {
            proof {
                lemma_fill_is_paint(old(fb)@, pixel);
            }
            return ;
        }
        let ghost before = fb.buffer@;
        let ghost chunks = (fb.width * fb.height) as int;
        let ghost done: int = 0;
        proof {
            assert(len == chunks * bps);
            vstd::arithmetic::div_mod::lemma_fundamental_div_mod_converse(
                len as int,
                bps as int,
                chunks,
                0,
            );
        }
        let mut offset: usize = 0;
        while offset < len
            invariant
                bps > 0,
                fb@.wf(),
                bps == fb.bytes_per_pixel,
                fb.width == old(fb).width,
                fb.height == old(fb).height,
                fb.bytes_per_pixel == old(fb).bytes_per_pixel,
                before == old(fb).buffer@,
                len == before.len(),
                fb.buffer@.len() == len,
                len == chunks * bps,
                len as int % bps as int == 0,
                offset == done * bps,
                0 <= done <= chunks,
                forall|i: int|
                    0 <= i < offset ==> #[trigger] fb.buffer@[i] == fill_pattern(
                        before,
                        pixel,
                        bps as int,
                    )[i],
                forall|i: int| offset <= i < len ==> #[trigger] fb.buffer@[i] == before[i],
            decreases len - offset,
        {
            proof {
                assert((done + 1) * bps <= chunks * bps) by (nonlinear_arith)
                    requires
                        done + 1 <= chunks,
                        bps > 0,
                ;
                assert((done + 1) * bps == done * bps + bps) by (nonlinear_arith);
                assert forall|c: int| 0 <= c < bps implies #[trigger] ((offset + c) % (bps as int))
                    == c by {
                    vstd::arithmetic::div_mod::lemma_fundamental_div_mod_converse(
                        offset + c,
                        bps as int,
                        done,
                        c,
                    );
                }
            }
            fb.buffer[offset] = pixel.b;
            if bps > 1 {
                fb.buffer[offset + 1] = pixel.g;
            }
            if bps > 2 {
                fb.buffer[offset + 2] = pixel.r;
            }
            if bps > 3 {
                fb.buffer[offset + 3] = pixel.channel;
            }
            proof {
                assert forall|i: int| 0 <= i < offset + bps implies #[trigger] fb.buffer@[i]
                    == fill_pattern(before, pixel, bps as int)[i] by {
                    if i >= offset {
                        let c = i - offset;
                        assert((offset + c) % (bps as int) == c);
                    }
                }
                done = done + 1;
            }
            offset += bps;
        }
        proof {
            assert(fb.buffer@ =~= fill_pattern(before, pixel, bps as int));
            lemma_fill_is_paint(old(fb)@, pixel);
        }
    }

    /// Writes the channel pattern of `pixel` into every chunk of `bps` bytes
    /// of the region. The region is left alone when its length is not a
    /// multiple of `bps`, or when `bps` is zero.
    pub fn fill_region(fb_region_slice: &mut [u8], pixel: Pixel, bps: usize)
        ensures
            final(fb_region_slice)@ == fill_pattern(old(fb_region_slice)@, pixel, bps as int),
    {
        if bps == 0 || fb_region_slice.len() % bps != 0 {
            return ;
        }
        let len = fb_region_slice.len();
        let ghost before = fb_region_slice@;
        let ghost chunks = len as int / bps as int;
        let ghost done: int = 0;
        proof {
            vstd::arithmetic::div_mod::lemma_fundamental_div_mod(len as int, bps as int);
        }
        let mut offset: usize = 0;
        while offset < len
            invariant
                bps > 0,
                len == before.len(),
                fb_region_slice@.len() == len,
                len == bps * chunks,
                len as int % bps as int == 0,
                offset == bps * done,
                0 <= done <= chunks,
                forall|i: int|
                    0 <= i < offset ==> #[trigger] fb_region_slice@[i] == fill_pattern(
                        before,
                        pixel,
                        bps as int,
                    )[i],
                forall|i: int| offset <= i < len ==> #[trigger] fb_region_slice@[i] == before[i],
            decreases len - offset,
        {
            proof {
                assert(bps * (done + 1) <= bps * chunks) by (nonlinear_arith)
                    requires
                        done + 1 <= chunks,
                        bps > 0,
                ;
                assert(bps * (done + 1) == bps * done + bps) by (nonlinear_arith);
                assert(done * bps == bps * done) by (nonlinear_arith);
                assert forall|c: int| 0 <= c < bps implies #[trigger] ((offset + c) % (bps as int))
                    == c by {
                    vstd::arithmetic::div_mod::lemma_fundamental_div_mod_converse(
                        offset + c,
                        bps as int,
                        done,
                        c,
                    );
                }
            }
            let ghost mid = fb_region_slice@;
            fb_region_slice[offset] = pixel.b;
            if bps > 1 {
                fb_region_slice[offset + 1] = pixel.g;
            }
            if bps > 2 {
                fb_region_slice[offset + 2] = pixel.r;
            }
            if bps > 3 {
                fb_region_slice[offset + 3] = pixel.channel;
            }
            proof {
                assert forall|i: int| 0 <= i < offset + bps implies #[trigger] fb_region_slice@[i]
                    == fill_pattern(before, pixel, bps as int)[i] by {
                    if i >= offset {
                        let c = i - offset;
                        assert((offset + c) % (bps as int) == c);
                    }
                }
                done = done + 1;
            }
            offset += bps;
        }
        assert(fb_region_slice@ =~= fill_pattern(before, pixel, bps as int));
    }
}

/// The bytes of an in-bounds pixel lie inside the buffer, so its offset can
/// be computed in machine arithmetic.
pub proof fn lemma_offset_fits(s: Surface, x: int, y: int)
    requires
        s.wf(),
        s.in_bounds(x, y),
    ensures
        0 <= y * s.width <= usize::MAX,
        0 <= y * s.width + x < s.width * s.height,
        0 <= s.offset_of(x, y),
        s.offset_of(x, y) + s.bytes_per_pixel <= s.bytes.len(),
        s.offset_of(x, y) + s.channels() <= s.bytes.len(),
{
    let w = s.width as int;
    let h = s.height as int;
    let d = s.bytes_per_pixel as int;
    let q = y * w + x;
    assert(0 <= y * w && 0 <= q < w * h) by (nonlinear_arith)
        requires
            q == y * w + x,
            0 <= x < w,
            0 <= y < h,
    ;
    assert(0 <= q * d && q * d + d <= w * h * d) by (nonlinear_arith)
        requires
            0 <= q < w * h,
            0 <= d,
    ;
}

/// Byte `c` of the in-bounds pixel `(x, y)` lies inside the buffer, and the
/// buffer position determines the pixel and the channel.
pub proof fn lemma_locate_byte(s: Surface, x: int, y: int, c: int)
    requires
        s.wf(),
        s.in_bounds(x, y),
        0 <= c < s.bytes_per_pixel,
    ensures
        0 <= s.offset_of(x, y) + c < s.bytes.len(),
        s.offset_of(x, y) + s.bytes_per_pixel <= s.bytes.len(),
        0 <= y * s.width + x < s.width * s.height,
        s.byte_x(s.offset_of(x, y) + c) == x,
        s.byte_y(s.offset_of(x, y) + c) == y,
        s.byte_channel(s.offset_of(x, y) + c) == c,
{
    let w = s.width as int;
    let h = s.height as int;
    let d = s.bytes_per_pixel as int;
    let q = y * w + x;
    assert(0 <= q < w * h) by (nonlinear_arith)
        requires
            q == y * w + x,
            0 <= x < w,
            0 <= y < h,
    ;
    assert(0 <= q * d && q * d + d <= w * h * d) by (nonlinear_arith)
        requires
            0 <= q < w * h,
            0 < d,
    ;
    vstd::arithmetic::div_mod::lemma_fundamental_div_mod_converse(q * d + c, d, q, c);
    vstd::arithmetic::div_mod::lemma_fundamental_div_mod_converse(q, w, y, x);
}

/// Every byte of the buffer is one channel byte of exactly one in-bounds pixel.
pub proof fn lemma_decompose_byte(s: Surface, i: int)
    requires
        s.wf(),
        0 <= i < s.bytes.len(),
    ensures
        s.bytes_per_pixel > 0,
        s.in_bounds(s.byte_x(i), s.byte_y(i)),
        0 <= s.byte_channel(i) < s.bytes_per_pixel,
        i == s.offset_of(s.byte_x(i), s.byte_y(i)) + s.byte_channel(i),
{
    let w = s.width as int;
    let h = s.height as int;
    let d = s.bytes_per_pixel as int;
    assert(d > 0 && w > 0) by (nonlinear_arith)
        requires
            0 < w * h * d,
            0 <= w,
            0 <= h,
            0 <= d,
    ;
    let q = i / d;
    vstd::arithmetic::div_mod::lemma_fundamental_div_mod(i, d);
    vstd::arithmetic::div_mod::lemma_mod_bound(i, d);
    assert(0 <= q < w * h) by (nonlinear_arith)
        requires
            i == d * q + i % d,
            0 <= i % d < d,
            0 <= i < w * h * d,
            0 < d,
    ;
    vstd::arithmetic::div_mod::lemma_fundamental_div_mod(q, w);
    vstd::arithmetic::div_mod::lemma_mod_bound(q, w);
    assert(0 <= q / w < h) by (nonlinear_arith)
        requires
            q == w * (q / w) + q % w,
            0 <= q % w < w,
            0 <= q < w * h,
            0 < w,
    ;
    assert((q / w) * w + q % w == q) by (nonlinear_arith)
        requires
            q == w * (q / w) + q % w,
    ;
    assert(q * d + i % d == i) by (nonlinear_arith)
        requires
            i == d * q + i % d,
    ;
}

/// Filling a framebuffer paints every pixel.
pub proof fn lemma_fill_is_paint(s: Surface, p: Pixel)
    requires
        s.wf(),
    ensures
        s.fill(p) == s.paint(everywhere(), solid(p)),
{
    let d = s.bytes_per_pixel as int;
    if d > 0 {
        assert((s.bytes.len() as int) % d == 0) by {
            vstd::arithmetic::div_mod::lemma_fundamental_div_mod_converse(
                s.bytes.len() as int,
                d,
                (s.width * s.height) as int,
                0,
            );
        }
    }
    assert(s.fill(p).bytes =~= s.paint(everywhere(), solid(p)).bytes);
}

/// Painting keeps the geometry and the well-formedness of a surface.
pub proof fn lemma_paint_wf(
    s: Surface,
    region: spec_fn(int, int) -> bool,
    colour: spec_fn(int, int) -> Pixel,
)
    requires
        s.wf(),
    ensures
        s.paint(region, colour).wf(),
        s.paint(region, colour).width == s.width,
        s.paint(region, colour).height == s.height,
        s.paint(region, colour).bytes_per_pixel == s.bytes_per_pixel,
{
}

/// What a painted surface holds at an in-bounds pixel: the colour of the
/// region where the pixel belongs to it, and what it held before elsewhere.
pub proof fn lemma_paint_pixel(
    s: Surface,
    region: spec_fn(int, int) -> bool,
    colour: spec_fn(int, int) -> Pixel,
    x: int,
    y: int,
)
    requires
        s.wf(),
        s.in_bounds(x, y),
    ensures
        s.paint(region, colour).pixel_at(x, y) == if region(x, y) {
            s.stored(colour(x, y))
        } else {
            s.pixel_at(x, y)
        },
{
    let t = s.paint(region, colour);
    let off = s.offset_of(x, y);
    assert forall|c: int| 0 <= c < s.channels() implies #[trigger] t.bytes[off + c] == if region(
        x,
        y,
    ) {
        channel_byte(colour(x, y), c)
    } else {
        s.bytes[off + c]
    } by {
        lemma_locate_byte(s, x, y, c);
    }
    if 0 < s.channels() {
        assert(t.bytes[off + 0] == t.bytes[off]);
    }
}

/// Two paintings agree when their regions and colours agree on the pixels of
/// the surface.
pub proof fn lemma_paint_congruent(
    s: Surface,
    r1: spec_fn(int, int) -> bool,
    c1: spec_fn(int, int) -> Pixel,
    r2: spec_fn(int, int) -> bool,
    c2: spec_fn(int, int) -> Pixel,
)
    requires
        s.wf(),
        forall|a: int, b: int| s.in_bounds(a, b) ==> #[trigger] r1(a, b) == r2(a, b),
        forall|a: int, b: int| s.in_bounds(a, b) && r1(a, b) ==> #[trigger] c1(a, b) == c2(a, b),
    ensures
        s.paint(r1, c1) == s.paint(r2, c2),
{
    assert forall|i: int| 0 <= i < s.bytes.len() implies s.paint(r1, c1).bytes[i] == s.paint(
        r2,
        c2,
    ).bytes[i] by {
        lemma_decompose_byte(s, i);
        let a = s.byte_x(i);
        let b = s.byte_y(i);
        assert(r1(a, b) == r2(a, b));
        if r1(a, b) {
            assert(c1(a, b) == c2(a, b));
        }
    }
    assert(s.paint(r1, c1).bytes =~= s.paint(r2, c2).bytes);
}

/// Painting nothing changes nothing.
pub proof fn lemma_paint_nothing(
    s: Surface,
    region: spec_fn(int, int) -> bool,
    colour: spec_fn(int, int) -> Pixel,
)
    requires
        s.wf(),
        forall|a: int, b: int| s.in_bounds(a, b) ==> !#[trigger] region(a, b),
    ensures
        s.paint(region, colour) == s,
{
    assert forall|i: int| 0 <= i < s.bytes.len() implies s.paint(region, colour).bytes[i]
        == s.bytes[i] by {
        lemma_decompose_byte(s, i);
        assert(!region(s.byte_x(i), s.byte_y(i)));
    }
    assert(s.paint(region, colour).bytes =~= s.bytes);
}

/// Painting twice is painting once: the union of the two regions, with the
/// second colour where the second region covers the first.
pub proof fn lemma_paint_twice(
    s: Surface,
    r1: spec_fn(int, int) -> bool,
    c1: spec_fn(int, int) -> Pixel,
    r2: spec_fn(int, int) -> bool,
    c2: spec_fn(int, int) -> Pixel,
    r3: spec_fn(int, int) -> bool,
    c3: spec_fn(int, int) -> Pixel,
)
    requires
        s.wf(),
        forall|a: int, b: int|
            s.in_bounds(a, b) ==> #[trigger] r3(a, b) == (r1(a, b) || r2(a, b)),
        forall|a: int, b: int|
            s.in_bounds(a, b) && r3(a, b) ==> #[trigger] c3(a, b) == if r2(a, b) {
                c2(a, b)
            } else {
                c1(a, b)
            },
    ensures
        s.paint(r1, c1).paint(r2, c2) == s.paint(r3, c3),
{
    let t = s.paint(r1, c1);
    assert forall|i: int| 0 <= i < s.bytes.len() implies t.paint(r2, c2).bytes[i] == s.paint(
        r3,
        c3,
    ).bytes[i] by {
        lemma_decompose_byte(s, i);
        let a = s.byte_x(i);
        let b = s.byte_y(i);
        assert(t.byte_x(i) == a && t.byte_y(i) == b);
        assert(r3(a, b) == (r1(a, b) || r2(a, b)));
        if r3(a, b) {
            assert(c3(a, b) == if r2(a, b) {
                c2(a, b)
            } else {
                c1(a, b)
            });
        }
    }
    assert(t.paint(r2, c2).bytes =~= s.paint(r3, c3).bytes);
}

/// Setting one pixel paints the region that holds just that pixel.
pub proof fn lemma_set_pixel_is_paint(s: Surface, p: Pixel, x: int, y: int)
    requires
        s.wf(),
    ensures
        s.set_pixel(p, x, y) == s.paint(point(x, y), solid(p)),
        s.set_pixel(p, x, y).wf(),
{
    let t = s.paint(point(x, y), solid(p));
    if s.in_bounds(x, y) {
        let off = s.offset_of(x, y);
        let n = s.channels();
        assert forall|i: int| 0 <= i < s.bytes.len() implies write_channels(s.bytes, off, n, p)[i]
            == t.bytes[i] by {
            lemma_decompose_byte(s, i);
            if off <= i < off + n {
                lemma_locate_byte(s, x, y, i - off);
            }
        }
        assert(write_channels(s.bytes, off, n, p) =~= t.bytes);
    } else {
        lemma_paint_nothing(s, point(x, y), solid(p));
    }
}

/// After a painting, setting one more pixel gives the painting of the region
/// grown by that pixel.
pub proof fn lemma_paint_then_set(
    s: Surface,
    r1: spec_fn(int, int) -> bool,
    c1: spec_fn(int, int) -> Pixel,
    p: Pixel,
    x: int,
    y: int,
    r2: spec_fn(int, int) -> bool,
    c2: spec_fn(int, int) -> Pixel,
)
    requires
        s.wf(),
        forall|a: int, b: int|
            s.in_bounds(a, b) ==> #[trigger] r2(a, b) == (r1(a, b) || (a == x && b == y)),
        forall|a: int, b: int|
            s.in_bounds(a, b) && r2(a, b) ==> #[trigger] c2(a, b) == if a == x && b == y {
                p
            } else {
                c1(a, b)
            },
    ensures
        s.paint(r1, c1).set_pixel(p, x, y) == s.paint(r2, c2),
{
    lemma_paint_wf(s, r1, c1);
    lemma_set_pixel_is_paint(s.paint(r1, c1), p, x, y);
    lemma_paint_twice(s, r1, c1, point(x, y), solid(p), r2, c2);
}

/// A pixel written in bounds reads back with the same channel values, as far
/// as the framebuffer stores them: all four where a pixel has four bytes or
/// more.
pub proof fn lemma_set_then_get(s: Surface, p: Pixel, x: int, y: int)
    requires
        s.wf(),
        s.in_bounds(x, y),
    ensures
        s.set_pixel(p, x, y).get_pixel(x, y) == Some(s.stored(p)),
        s.bytes_per_pixel >= 4 ==> s.set_pixel(p, x, y).get_pixel(x, y) == Some(p),
{
    lemma_set_pixel_is_paint(s, p, x, y);
    lemma_paint_pixel(s, point(x, y), solid(p), x, y);
}

/// Writing a pixel leaves every other pixel as it was.
pub proof fn lemma_set_keeps_others(s: Surface, p: Pixel, x: int, y: int, a: int, b: int)
    requires
        s.wf(),
        a != x || b != y,
    ensures
        s.set_pixel(p, x, y).get_pixel(a, b) == s.get_pixel(a, b),
{
    lemma_set_pixel_is_paint(s, p, x, y);
    if s.in_bounds(a, b) {
        lemma_paint_pixel(s, point(x, y), solid(p), a, b);
    }
}

/// Out of bounds nothing is written and nothing is read.
pub proof fn lemma_out_of_bounds_is_clipped(s: Surface, p: Pixel, x: int, y: int)
    requires
        x >= s.width || y >= s.height,
    ensures
        s.set_pixel(p, x, y) == s,
        s.get_pixel(x, y) is None,
{
}

} // verus!
