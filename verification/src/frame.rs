//! The 400x300 one-bit framebuffer of the reflective panel.
//!
//! One byte holds a 2(x) x 4(y) block of pixels, and the panel's rows run
//! bottom-up relative to the landscape origin:
//!
//! ```text
//! inv_y   = 299 - y
//! index   = (x / 2) * 75 + inv_y / 4
//! bit     = 7 - ((inv_y % 4) * 2 + (x % 2))
//! ```
//!
//! The frame is modelled as the set of its inked pixels.

use vstd::prelude::*;

verus! {

/// Landscape width, in pixels.
pub const WIDTH: u32 = 400;

/// Landscape height, in pixels.
pub const HEIGHT: u32 = 300;

/// Framebuffer size: 400 * 300 / 8.
pub const BUF_LEN: usize = 15_000;

/// Bytes that hold one pair of pixel columns.
const BLOCKS_PER_COLUMN: usize = 75;

/// A set bit lights the pixel as white, so ink has to clear it. The power-on
/// sequence enables display inversion, which is what makes this the right way
/// round.
pub const INK_CLEARS_BIT: bool = true;

/// One-bit colour: `On` is ink, `Off` is background.
#[derive(Clone, Copy, Debug, PartialEq, Eq, Structural)]
pub enum BinaryColor {
    Off,
    On,
}

/// Whether this colour is drawn as ink (dark) rather than background.
pub fn is_ink(color: BinaryColor) -> (ink: bool)
    ensures
        ink == (color == BinaryColor::On),
{
    match color {
        BinaryColor::On => INK_CLEARS_BIT,
        BinaryColor::Off => !INK_CLEARS_BIT,
    }
}

/// Whether `(x, y)` lies on the screen.
pub open spec fn on_screen(x: int, y: int) -> bool {
    0 <= x < WIDTH && 0 <= y < HEIGHT
}

/// Byte of the framebuffer that holds pixel `(x, y)`.
pub open spec fn byte_of(x: int, y: int) -> int {
    (x / 2) * 75 + (299 - y) / 4
}

/// Bit, within that byte, of pixel `(x, y)`.
pub open spec fn bit_of(x: int, y: int) -> int {
    7 - (((299 - y) % 4) * 2 + x % 2)
}

/// Column of the pixel held by bit `bit` of byte `index`.
pub open spec fn column_of(index: int, bit: int) -> int {
    2 * (index / 75) + (7 - bit) % 2
}

/// Row of the pixel held by bit `bit` of byte `index`.
pub open spec fn row_of(index: int, bit: int) -> int {
    299 - (4 * (index % 75) + (7 - bit) / 2)
}

/// Bit `bit` of `byte`.
pub open spec fn bit_set(byte: u8, bit: int) -> bool {
    (byte >> (bit as u8)) & 1 == 1
}

/// Whether `(x, y)` is inked in the framebuffer `bytes`: its bit is clear.
pub open spec fn inked(bytes: Seq<u8>, x: int, y: int) -> bool {
    !bit_set(bytes[byte_of(x, y)], bit_of(x, y))
}

/// The inked pixels of the framebuffer `bytes`.
pub open spec fn ink_set(bytes: Seq<u8>) -> Set<(int, int)> {
    Set::new(|p: (int, int)| on_screen(p.0, p.1) && inked(bytes, p.0, p.1))
}

/// Every pixel of the screen.
pub open spec fn whole_screen() -> Set<(int, int)> {
    Set::new(|p: (int, int)| on_screen(p.0, p.1))
}

/// The canvas after the pixels of `shape` were drawn in one colour.
pub open spec fn paint(canvas: Set<(int, int)>, shape: Set<(int, int)>, ink: bool) -> Set<
    (int, int),
> {
    if ink {
        canvas.union(shape)
    } else {
        canvas.difference(shape)
    }
}

/// The one-pixel shape at `(x, y)`, empty off the screen.
pub open spec fn dot(x: int, y: int) -> Set<(int, int)> {
    Set::new(|p: (int, int)| p == (x, y) && on_screen(x, y))
}

/// The canvas after `pixels` were drawn one after the other.
pub open spec fn paint_each(
    canvas: Set<(int, int)>,
    pixels: Seq<(i32, i32, BinaryColor)>,
) -> Set<(int, int)>
    decreases pixels.len(),
{
    if pixels.len() == 0 {
        canvas
    } else {
        let p = pixels.last();
        paint(
            paint_each(canvas, pixels.drop_last()),
            dot(p.0 as int, p.1 as int),
            p.2 == BinaryColor::On,
        )
    }
}

/// The pixel packing is an exact bijection, one way: every pixel of the screen
/// has a bit of the buffer, and that bit leads back to the pixel.
pub proof fn law_pixel_has_its_own_bit(x: int, y: int)
    requires
        on_screen(x, y),
    ensures
        0 <= byte_of(x, y) < BUF_LEN,
        0 <= bit_of(x, y) < 8,
        column_of(byte_of(x, y), bit_of(x, y)) == x,
        row_of(byte_of(x, y), bit_of(x, y)) == y,
{
}

/// The pixel packing is an exact bijection, the other way: every bit of the
/// buffer holds a pixel of the screen, and that pixel leads back to the bit.
pub proof fn law_bit_has_its_own_pixel(index: int, bit: int)
    requires
        0 <= index < BUF_LEN,
        0 <= bit < 8,
    ensures
        on_screen(column_of(index, bit), row_of(index, bit)),
        byte_of(column_of(index, bit), row_of(index, bit)) == index,
        bit_of(column_of(index, bit), row_of(index, bit)) == bit,
{
}

/// Two pixels never share a bit.
pub proof fn law_pixels_do_not_overlap(x1: int, y1: int, x2: int, y2: int)
    requires
        on_screen(x1, y1),
        on_screen(x2, y2),
        (x1, y1) != (x2, y2),
    ensures
        (byte_of(x1, y1), bit_of(x1, y1)) != (byte_of(x2, y2), bit_of(x2, y2)),
{
    law_pixel_has_its_own_bit(x1, y1);
    law_pixel_has_its_own_bit(x2, y2);
}

/// Clearing one bit leaves it clear and the others alone.
proof fn lemma_clear_bit(v: u8, at: u8, other: u8)
    requires
        at < 8,
        other < 8,
    ensures
        ((v & !(1u8 << at)) >> at) & 1 == 0,
        at != other ==> ((v & !(1u8 << at)) >> other) & 1 == (v >> other) & 1,
{
    assert(((v & !(1u8 << at)) >> at) & 1 == 0) by (bit_vector)
        requires
            at < 8,
    ;
    assert(at != other ==> ((v & !(1u8 << at)) >> other) & 1 == (v >> other) & 1) by (bit_vector)
        requires
            at < 8,
            other < 8,
    ;
}

/// Setting one bit leaves it set and the others alone.
proof fn lemma_set_bit(v: u8, at: u8, other: u8)
    requires
        at < 8,
        other < 8,
    ensures
        ((v | (1u8 << at)) >> at) & 1 == 1,
        at != other ==> ((v | (1u8 << at)) >> other) & 1 == (v >> other) & 1,
{
    assert(((v | (1u8 << at)) >> at) & 1 == 1) by (bit_vector)
        requires
            at < 8,
    ;
    assert(at != other ==> ((v | (1u8 << at)) >> other) & 1 == (v >> other) & 1) by (bit_vector)
        requires
            at < 8,
            other < 8,
    ;
}

/// A byte with every bit set, and one with none.
proof fn lemma_solid_bytes(bit: u8)
    requires
        bit < 8,
    ensures
        (0xFFu8 >> bit) & 1 == 1,
        (0x00u8 >> bit) & 1 == 0,
{
    assert((0xFFu8 >> bit) & 1 == 1 && (0x00u8 >> bit) & 1 == 0) by (bit_vector)
        requires
            bit < 8,
    ;
}

/// Two bytes with the same bits are the same byte.
proof fn lemma_same_bits(a: u8, b: u8)
    requires
        forall|bit: int| 0 <= bit < 8 ==> bit_set(a, bit) == bit_set(b, bit),
    ensures
        a == b,
{
    assert(bit_set(a, 0) == bit_set(b, 0));
    assert(bit_set(a, 1) == bit_set(b, 1));
    assert(bit_set(a, 2) == bit_set(b, 2));
    assert(bit_set(a, 3) == bit_set(b, 3));
    assert(bit_set(a, 4) == bit_set(b, 4));
    assert(bit_set(a, 5) == bit_set(b, 5));
    assert(bit_set(a, 6) == bit_set(b, 6));
    assert(bit_set(a, 7) == bit_set(b, 7));
    assert(a == b) by (bit_vector)
        requires
            ((a >> 0u8) & 1 == 1) == ((b >> 0u8) & 1 == 1),
            ((a >> 1u8) & 1 == 1) == ((b >> 1u8) & 1 == 1),
            ((a >> 2u8) & 1 == 1) == ((b >> 2u8) & 1 == 1),
            ((a >> 3u8) & 1 == 1) == ((b >> 3u8) & 1 == 1),
            ((a >> 4u8) & 1 == 1) == ((b >> 4u8) & 1 == 1),
            ((a >> 5u8) & 1 == 1) == ((b >> 5u8) & 1 == 1),
            ((a >> 6u8) & 1 == 1) == ((b >> 6u8) & 1 == 1),
            ((a >> 7u8) & 1 == 1) == ((b >> 7u8) & 1 == 1),
    ;
}

/// The picture decides the bytes: two framebuffers that show the same ink are
/// the same bytes, so nothing of a frame escapes its ink set.
pub proof fn law_picture_decides_bytes(a: Seq<u8>, b: Seq<u8>)
    requires
        a.len() == BUF_LEN,
        b.len() == BUF_LEN,
        ink_set(a) == ink_set(b),
    ensures
        a == b,
{
    assert forall|i: int| 0 <= i < BUF_LEN implies a[i] == b[i] by {
        assert forall|bit: int| 0 <= bit < 8 implies bit_set(a[i], bit) == bit_set(b[i], bit) by {
            law_bit_has_its_own_pixel(i, bit);
            let p = (column_of(i, bit), row_of(i, bit));
            assert(ink_set(a).contains(p) == inked(a, p.0, p.1));
            assert(ink_set(b).contains(p) == inked(b, p.0, p.1));
        }
        lemma_same_bits(a[i], b[i]);
    }
    assert(a =~= b);
}

/// The framebuffer.
pub struct Frame {
    buf: [u8; 15_000],
}

impl View for Frame {
    type V = Set<(int, int)>;

    open spec fn view(&self) -> Set<(int, int)> {
        ink_set(self.bytes())
    }
}

impl Frame {
    /// The bytes that go out to the panel.
    pub closed spec fn bytes(&self) -> Seq<u8> {
        self.buf@
    }

    /// A blank frame: all bits set, which is all white.
    pub fn new() -> (frame: Frame)
        ensures
            frame@ == Set::<(int, int)>::empty(),
            frame.bytes() == Seq::new(BUF_LEN as nat, |i: int| 0xFFu8),
    {
        let frame = Frame { buf: [0xFF; 15_000] };
        proof {
            lemma_uniform(frame.bytes(), 0xFF);
        }
        frame
    }

    /// The bytes that go out to the panel.
    pub fn as_bytes(&self) -> (bytes: &[u8; 15_000])
        ensures
            bytes@ == self.bytes(),
            ink_set(bytes@) == self@,
    {
        &self.buf
    }

    /// Fill the whole frame with one colour.
    pub fn clear(&mut self, color: BinaryColor)
        ensures
            final(self)@ == (if color == BinaryColor::On {
                whole_screen()
            } else {
                Set::<(int, int)>::empty()
            }),
            final(self).bytes() == Seq::new(
                BUF_LEN as nat,
                |i: int|
                    if color == BinaryColor::On {
                        0x00u8
                    } else {
                        0xFFu8
                    },
            ),
    {
        let byte: u8 = if is_ink(color) {
            0x00
        } else {
            0xFF
        };
        self.buf = [byte; 15_000];
        proof {
            lemma_uniform(self.bytes(), byte);
        }
    }

    /// Draw one pixel. Off the screen this does nothing.
    pub fn set_pixel(&mut self, x: u32, y: u32, color: BinaryColor)
        ensures
            final(self)@ == paint(old(self)@, dot(x as int, y as int), color == BinaryColor::On),
    {
        if x >= WIDTH || y >= HEIGHT {
            assert(self@ =~= paint(self@, dot(x as int, y as int), color == BinaryColor::On));
            return;
        }
        let inv_y: usize = HEIGHT as usize - 1 - y as usize;
        let index: usize = (x as usize / 2) * BLOCKS_PER_COLUMN + inv_y / 4;
        let bit: usize = 7 - ((inv_y % 4) * 2 + (x as usize % 2));
        let mask: u8 = 1u8 << (bit as u8);
        assert(index == byte_of(x as int, y as int));
        assert(bit == bit_of(x as int, y as int));

        let before: u8 = self.buf[index];
        if is_ink(color) {
            self.buf[index] = before & !mask;
        } else {
            self.buf[index] = before | mask;
        }
        proof {
            let was = old(self).bytes();
            let now = self.bytes();
            let want = paint(old(self)@, dot(x as int, y as int), color == BinaryColor::On);
            assert forall|p: (int, int)| self@.contains(p) == want.contains(p) by {
                if on_screen(p.0, p.1) {
                    law_pixel_has_its_own_bit(p.0, p.1);
                    let b = bit_of(p.0, p.1) as u8;
                    lemma_clear_bit(before, bit as u8, b);
                    lemma_set_bit(before, bit as u8, b);
                    if p != (x as int, y as int) {
                        law_pixels_do_not_overlap(x as int, y as int, p.0, p.1);
                    }
                }
            }
            assert(self@ =~= want);
        }
    }

    /// Draw pixels one after the other; those off the screen are skipped.
    pub fn draw_iter(&mut self, pixels: &[(i32, i32, BinaryColor)])
        ensures
            final(self)@ == paint_each(old(self)@, pixels@),
    {
        let mut i: usize = 0;
        assert(pixels@.take(0).len() == 0);
        while i < pixels.len()
            invariant
                i <= pixels@.len(),
                self@ == paint_each(old(self)@, pixels@.take(i as int)),
            decreases pixels@.len() - i,
        {
            let (x, y, color) = pixels[i];
            let ghost before = self@;
            if x >= 0 && y >= 0 {
                self.set_pixel(x as u32, y as u32, color);
            } else {
                assert(paint(before, dot(x as int, y as int), color == BinaryColor::On) =~= before);
            }
            assert(pixels@.take(i + 1).drop_last() =~= pixels@.take(i as int));
            assert(pixels@.take(i + 1).last() == pixels@[i as int]);
            i += 1;
        }
        assert(pixels@.take(i as int) =~= pixels@);
    }
}

/// A buffer of one repeated byte shows a blank or a solid screen.
proof fn lemma_uniform(bytes: Seq<u8>, byte: u8)
    requires
        bytes.len() == BUF_LEN,
        forall|i: int| 0 <= i < BUF_LEN ==> bytes[i] == byte,
        byte == 0x00 || byte == 0xFF,
    ensures
        ink_set(bytes) == (if byte == 0x00 {
            whole_screen()
        } else {
            Set::<(int, int)>::empty()
        }),
        bytes == Seq::new(BUF_LEN as nat, |i: int| byte),
{
    let want = if byte == 0x00 {
        whole_screen()
    } else {
        Set::<(int, int)>::empty()
    };
    assert forall|p: (int, int)| ink_set(bytes).contains(p) == want.contains(p) by {
        if on_screen(p.0, p.1) {
            law_pixel_has_its_own_bit(p.0, p.1);
            lemma_solid_bytes(bit_of(p.0, p.1) as u8);
        }
    }
    assert(ink_set(bytes) =~= want);
    assert(bytes =~= Seq::new(BUF_LEN as nat, |i: int| byte));
}

/// What was drawn is what is read back: after a pixel was drawn on the screen,
/// it shows that colour and every other pixel shows what it showed before.
pub proof fn law_draw_then_read(canvas: Set<(int, int)>, x: int, y: int, ink: bool, p: (int, int))
    requires
        on_screen(x, y),
    ensures
        paint(canvas, dot(x, y), ink).contains((x, y)) == ink,
        p != (x, y) ==> paint(canvas, dot(x, y), ink).contains(p) == canvas.contains(p),
{
}

/// Bit 7 of byte 0 is the bottom left pixel. From any pixel, two columns to the right
/// is one column of 75 bytes further in the same bit, and four rows up is the next
/// byte in the same bit; the right one of a pair of columns is the next lower bit, and
/// a row up within a block of four is two bits lower. So each byte is a block of two
/// columns and four rows, and the blocks run bottom-up and then to the right.
pub proof fn law_packing_by_neighbours(x: int, y: int)
    requires
        on_screen(x, y),
    ensures
        byte_of(0, 299) == 0 && bit_of(0, 299) == 7,
        on_screen(x + 2, y) ==> byte_of(x + 2, y) == byte_of(x, y) + 75 && bit_of(x + 2, y)
            == bit_of(x, y),
        on_screen(x, y - 4) ==> byte_of(x, y - 4) == byte_of(x, y) + 1 && bit_of(x, y - 4)
            == bit_of(x, y),
        x % 2 == 0 ==> byte_of(x + 1, y) == byte_of(x, y) && bit_of(x + 1, y) == bit_of(x, y) - 1,
        y % 4 != 0 ==> byte_of(x, y - 1) == byte_of(x, y) && bit_of(x, y - 1) == bit_of(x, y) - 2,
{
}

/// Ink is a clear bit: of a buffer whose bits are all clear every pixel is inked, of
/// one whose bits are all set none is, and in general a pixel is inked exactly when
/// its bit is clear.
pub proof fn law_ink_is_a_clear_bit(bytes: Seq<u8>, x: int, y: int)
    requires
        bytes.len() == BUF_LEN,
        on_screen(x, y),
    ensures
        ink_set(bytes).contains((x, y)) <==> (bytes[byte_of(x, y)] >> (bit_of(x, y) as u8)) & 1
            == 0,
        bytes[byte_of(x, y)] == 0x00 ==> ink_set(bytes).contains((x, y)),
        bytes[byte_of(x, y)] == 0xFF ==> !ink_set(bytes).contains((x, y)),
{
    let byte = bytes[byte_of(x, y)];
    let bit = bit_of(x, y) as u8;
    assert((byte >> bit) & 1 == 0 || (byte >> bit) & 1 == 1) by (bit_vector);
    assert((0x00u8 >> bit) & 1 == 0) by (bit_vector);
    assert((0xFFu8 >> bit) & 1 == 1) by (bit_vector)
        requires
            bit < 8,
    ;
}

/// Drawing a shape decides the pixels of the shape and no other.
pub proof fn law_paint_decides_the_shape(
    canvas: Set<(int, int)>,
    shape: Set<(int, int)>,
    ink: bool,
    p: (int, int),
)
    ensures
        shape.contains(p) ==> (paint(canvas, shape, ink).contains(p) <==> ink),
        !shape.contains(p) ==> (paint(canvas, shape, ink).contains(p) <==> canvas.contains(p)),
{
}

/// Of pixels drawn one after the other the last one at a place on the screen decides
/// it, and a place that none of them names stays as it was.
pub proof fn law_last_pixel_wins(
    canvas: Set<(int, int)>,
    pixels: Seq<(i32, i32, BinaryColor)>,
    last: int,
    p: (int, int),
)
    requires
        -1 <= last < pixels.len(),
        last >= 0 ==> p == (pixels[last].0 as int, pixels[last].1 as int),
        forall|i: int|
            last < i < pixels.len() ==> p != ((#[trigger] pixels[i]).0 as int, pixels[i].1 as int),
    ensures
        last >= 0 && 0 <= p.0 < 400 && 0 <= p.1 < 300 ==> (paint_each(canvas, pixels).contains(p)
            <==> pixels[last].2 == BinaryColor::On),
        last < 0 || !(0 <= p.0 < 400 && 0 <= p.1 < 300) ==> (paint_each(canvas, pixels).contains(p)
            <==> canvas.contains(p)),
    decreases pixels.len(),
{
    if pixels.len() > 0 {
        let before = pixels.drop_last();
        let end = pixels.len() - 1;
        if last < end {
            assert(p != (pixels[end].0 as int, pixels[end].1 as int));
            assert forall|i: int| last < i < before.len() implies p != (
                (#[trigger] before[i]).0 as int,
                before[i].1 as int,
            ) by {
                assert(before[i] == pixels[i]);
            }
            law_last_pixel_wins(canvas, before, last, p);
        } else if !on_screen(p.0, p.1) {
            lemma_off_screen_stays(canvas, pixels, p);
        }
    }
}

proof fn lemma_off_screen_stays(
    canvas: Set<(int, int)>,
    pixels: Seq<(i32, i32, BinaryColor)>,
    p: (int, int),
)
    requires
        !on_screen(p.0, p.1),
    ensures
        paint_each(canvas, pixels).contains(p) == canvas.contains(p),
    decreases pixels.len(),
{
    if pixels.len() > 0 {
        lemma_off_screen_stays(canvas, pixels.drop_last(), p);
    }
}

} // verus!
