//! Driver core for a page-addressed, one-bit-per-pixel 128 by 128 OLED
//! controller on a two-wire bus: an in-memory framebuffer with the
//! pixel-to-byte mapping, a typed catalog of controller commands, a
//! transport framer that prefixes control bytes and chunks payloads to
//! the bus's transaction limit, and a session that sequences
//! initialization and full-frame flushes. What each operation puts on
//! the wire is stated in its contract, over the history of transactions
//! attempted on the owned bus port.

pub mod builder;
pub mod bus;
pub mod cmds;
pub mod display;
pub mod error;
pub mod framer;
pub mod session;

use vstd::prelude::*;

use crate::bus::I2cBus;

verus! {

/// Width of the display in pixels.
pub const DISPLAY_WIDTH: usize = 128;

/// Height of the display in pixels; a multiple of 8.
pub const DISPLAY_HEIGHT: usize = 128;

/// Number of pixel rows covered by one page.
pub const PAGE_HEIGHT: usize = 8;

/// Number of pages the display is divided into.
pub const PAGE_COUNT: usize = DISPLAY_HEIGHT / PAGE_HEIGHT;

/// Size in bytes of the full framebuffer.
pub const BUFFER_SIZE: usize = DISPLAY_WIDTH * DISPLAY_HEIGHT / 8;

/// Largest number of bytes the bus accepts in one transaction,
/// the frame control byte included.
pub const I2C_MAX_WRITE: usize = 32;

/// True when `(x, y)` lies on the display.
pub open spec fn in_bounds(x: int, y: int) -> bool {
    &&& 0 <= x < DISPLAY_WIDTH
    &&& 0 <= y < DISPLAY_HEIGHT
}

/// Index of the framebuffer byte that holds pixel `(x, y)`:
/// each byte covers 8 vertically stacked pixels of one page.
pub open spec fn pixel_index(x: int, y: int) -> int {
    x + (y / 8) * (DISPLAY_WIDTH as int)
}

/// Mask of the bit that holds pixel `(x, y)` inside its byte;
/// bit 0 is the topmost row of the page.
pub open spec fn pixel_mask(y: int) -> u8 {
    1u8 << ((y % 8) as u8)
}

/// True when pixel `(x, y)` is on in the framebuffer `buf`.
pub open spec fn pixel_on(buf: Seq<u8>, x: int, y: int) -> bool {
    buf[pixel_index(x, y)] & pixel_mask(y) != 0
}

/// A session that owns the bus handle, the bus address and the framebuffer.
pub struct Sh1107g<B> {
    /// The bus handle, owned exclusively for the session's lifetime.
    pub i2c: B,
    /// The bus address every transaction is sent to.
    pub address: u8,
    /// The framebuffer, `BUFFER_SIZE` bytes in page/column layout.
    pub buffer: Vec<u8>,
}

impl<B> Sh1107g<B> {
    /// The framebuffer has its fixed size.
    pub open spec fn wf(&self) -> bool {
        self.buffer@.len() == BUFFER_SIZE
    }

    /// The framebuffer bytes.
    pub open spec fn buf(&self) -> Seq<u8> {
        self.buffer@
    }

    /// The configured bus address.
    pub open spec fn addr(&self) -> u8 {
        self.address
    }
}

impl<B: I2cBus> Sh1107g<B> {
    /// The transactions attempted on the owned bus so far.
    pub open spec fn log(&self) -> Seq<(u8, Seq<u8>)> {
        self.i2c.writes()
    }

    /// Makes a session around a connected bus handle, with every pixel off.
    pub fn new(i2c: B, address: u8) -> (r: Self)
        ensures
            r.wf(),
            r.addr() == address,
            r.log() == i2c.writes(),
            r.buf() == Seq::new(BUFFER_SIZE as nat, |i: int| 0u8),
            forall|x: int, y: int| in_bounds(x, y) ==> !#[trigger] pixel_on(r.buf(), x, y),
    {
        let r = Sh1107g { i2c, address, buffer: filled(BUFFER_SIZE, 0x00) };
        proof {
            lemma_const_byte_pixels(r.buf(), 0x00);
        }
        r
    }

    /// Read-only view of the framebuffer, for transmission or inspection.
    pub fn as_bytes(&self) -> (r: &[u8])
        ensures
            r@ == self.buf(),
    {
        self.buffer.as_slice()
    }

    /// Mutable view of the framebuffer bytes, for callers that render by
    /// writing page-laid-out bytes directly. The bus and the address are
    /// untouched; the buffer afterwards holds whatever the caller wrote
    /// through the returned slice, whose length cannot change.
    pub fn buffer_mut(&mut self) -> (r: &mut [u8])
        ensures
            r@ == old(self).buf(),
            final(self).buf() == final(r)@,
            final(self).addr() == old(self).addr(),
            final(self).log() == old(self).log(),
    {
        self.buffer.as_mut_slice()
    }

    /// Turns every pixel off.
    pub fn clear_buffer(&mut self)
        ensures
            final(self).wf(),
            final(self).addr() == old(self).addr(),
            final(self).log() == old(self).log(),
            final(self).buf() == Seq::new(BUFFER_SIZE as nat, |i: int| 0u8),
            forall|x: int, y: int|
                in_bounds(x, y) ==> !#[trigger] pixel_on(final(self).buf(), x, y),
    {
        self.buffer = filled(BUFFER_SIZE, 0x00);
        proof {
            lemma_const_byte_pixels(self.buf(), 0x00);
        }
    }

    /// Turns every pixel on or off in one pass over the framebuffer.
    pub fn clear(&mut self, on: bool)
        ensures
            final(self).wf(),
            final(self).addr() == old(self).addr(),
            final(self).log() == old(self).log(),
            final(self).buf() == Seq::new(
                BUFFER_SIZE as nat,
                |i: int| if on { 0xFFu8 } else { 0x00u8 },
            ),
            forall|x: int, y: int|
                in_bounds(x, y) ==> #[trigger] pixel_on(final(self).buf(), x, y) == on,
    {
        let fill_byte: u8 = if on { 0xFF } else { 0x00 };
        self.buffer = filled(BUFFER_SIZE, fill_byte);
        proof {
            lemma_const_byte_pixels(self.buf(), fill_byte);
        }
    }

    /// Sets pixel `(x, y)` on or off. Coordinates off the display are
    /// ignored, so that drawing routines may clip freely at the edges.
    pub fn set_pixel(&mut self, x: i32, y: i32, on: bool)
        requires
            old(self).wf(),
        ensures
            final(self).wf(),
            final(self).addr() == old(self).addr(),
            final(self).log() == old(self).log(),
            in_bounds(x as int, y as int) ==> {
                let idx = pixel_index(x as int, y as int);
                let mask = pixel_mask(y as int);
                &&& final(self).buf() == old(self).buf().update(
                    idx,
                    if on { old(self).buf()[idx] | mask } else { old(self).buf()[idx] & !mask },
                )
                &&& pixel_on(final(self).buf(), x as int, y as int) == on
                &&& forall|x2: int, y2: int|
                    in_bounds(x2, y2) && !(x2 == x as int && y2 == y as int)
                        ==> #[trigger] pixel_on(final(self).buf(), x2, y2) == pixel_on(
                            old(self).buf(),
                            x2,
                            y2,
                        )
            },
            !in_bounds(x as int, y as int) ==> final(self).buf() == old(self).buf(),
    {
        if x < 0 || x >= DISPLAY_WIDTH as i32 || y < 0 || y >= DISPLAY_HEIGHT as i32 {
            return ;
        }
        let xu = x as usize;
        let yu = y as usize;
        let idx = xu + (yu / 8) * DISPLAY_WIDTH;
        let bit: u8 = (yu % 8) as u8;
        let mask: u8 = 1u8 << bit;
        let b = self.buffer[idx];
        let nb = if on { b | mask } else { b & !mask };
        self.buffer.set(idx, nb);
        proof {
            lemma_pixel_update(old(self).buf(), self.buf(), x as int, y as int, on);
        }
    }
}

/// A vector of `len` copies of `value`.
fn filled(len: usize, value: u8) -> (r: Vec<u8>)
    ensures
        r@ == Seq::new(len as nat, |i: int| value),
{
    let mut r: Vec<u8> = Vec::new();
    while r.len() < len
        invariant
            r@.len() <= len,
            forall|i: int| 0 <= i < r@.len() ==> r@[i] == value,
        decreases len - r@.len(),
    {
        r.push(value);
    }
    proof {
        assert(r@ =~= Seq::new(len as nat, |i: int| value));
    }
    r
}

/// Setting or clearing one bit leaves that bit as asked and every other
/// bit of the byte as it was.
proof fn lemma_bit_update(b: u8, i: u8)
    by (bit_vector)
    requires
        i < 8,
    ensures
        (b | (1u8 << i)) & (1u8 << i) != 0,
        (b & !(1u8 << i)) & (1u8 << i) == 0,
        forall|j: u8| j < 8 && j != i ==> ((b | (1u8 << i)) & (1u8 << j)) == (b & (1u8 << j)),
        forall|j: u8| j < 8 && j != i ==> ((b & !(1u8 << i)) & (1u8 << j)) == (b & (1u8 << j)),
{
}

/// In a byte of all ones every bit is set; in a byte of all zeros, none.
proof fn lemma_const_byte_bits()
    by (bit_vector)
    ensures
        forall|j: u8| j < 8 ==> (0xFFu8 & (1u8 << j)) != 0,
        forall|j: u8| j < 8 ==> (0x00u8 & (1u8 << j)) == 0,
{
}

/// Every pixel of a framebuffer filled with `0xFF` is on; of one filled
/// with `0x00`, off.
proof fn lemma_const_byte_pixels(buf: Seq<u8>, value: u8)
    requires
        buf.len() == BUFFER_SIZE,
        forall|i: int| 0 <= i < buf.len() ==> buf[i] == value,
        value == 0xFF || value == 0x00,
    ensures
        forall|x: int, y: int| in_bounds(x, y) ==> pixel_on(buf, x, y) == (value == 0xFF),
{
    lemma_const_byte_bits();
    assert forall|x: int, y: int| in_bounds(x, y) implies pixel_on(buf, x, y) == (value
        == 0xFF) by {
        lemma_pixel_index_range(x, y);
        assert(buf[pixel_index(x, y)] == value);
        assert(((y % 8) as u8) < 8);
    }
}

/// The mapped byte of an on-display pixel lies inside the framebuffer.
proof fn lemma_pixel_index_range(x: int, y: int)
    requires
        in_bounds(x, y),
    ensures
        0 <= pixel_index(x, y) < BUFFER_SIZE,
        0 <= y / 8 < PAGE_COUNT,
{
}

/// After updating the mapped byte, the touched pixel reads as asked and
/// every other on-display pixel is unchanged.
proof fn lemma_pixel_update(pre: Seq<u8>, post: Seq<u8>, x: int, y: int, on: bool)
    requires
        pre.len() == BUFFER_SIZE,
        in_bounds(x, y),
        post == pre.update(
            pixel_index(x, y),
            if on {
                pre[pixel_index(x, y)] | pixel_mask(y)
            } else {
                pre[pixel_index(x, y)] & !pixel_mask(y)
            },
        ),
    ensures
        pixel_on(post, x, y) == on,
        forall|x2: int, y2: int|
            in_bounds(x2, y2) && !(x2 == x && y2 == y) ==> pixel_on(post, x2, y2) == pixel_on(
                pre,
                x2,
                y2,
            ),
{
    let idx = pixel_index(x, y);
    let bit = (y % 8) as u8;
    lemma_pixel_index_range(x, y);
    lemma_bit_update(pre[idx], bit);
    assert forall|x2: int, y2: int|
        in_bounds(x2, y2) && !(x2 == x && y2 == y) implies pixel_on(post, x2, y2) == pixel_on(
        pre,
        x2,
        y2,
    ) by {
        lemma_pixel_index_range(x2, y2);
        let idx2 = pixel_index(x2, y2);
        if idx2 == idx {
            // Same byte: the columns and pages agree, so the rows differ
            // within the page and the masks name different bits.
            assert(x2 == x && y2 / 8 == y / 8);
            assert(y2 % 8 != y % 8);
            assert(((y2 % 8) as u8) != bit);
        } else {
            assert(post[idx2] == pre[idx2]);
        }
    }
}

} // verus!
