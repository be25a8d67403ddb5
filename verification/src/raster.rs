//! Drawing on the frame: text, rectangles and lines.
//!
//! `embedded-graphics` decides which pixels a shape covers. Each shape is drawn
//! on an off-screen mask the size of the panel, and the mask is then stamped on
//! the frame in ink or in background.

use embedded_graphics::framebuffer::Framebuffer;
use embedded_graphics::geometry::{Point, Size};
use embedded_graphics::mono_font::ascii::{FONT_10X20, FONT_6X10, FONT_6X13_BOLD, FONT_8X13_BOLD};
use embedded_graphics::mono_font::MonoTextStyle;
use embedded_graphics::pixelcolor::raw::{BigEndian, RawU1};
use embedded_graphics::pixelcolor::BinaryColor as MaskColor;
use embedded_graphics::primitives::{Line, Primitive, PrimitiveStyle, Rectangle};
use embedded_graphics::text::{Baseline, Text};
use embedded_graphics::Drawable;
use vstd::prelude::*;
use vstd::string::StrSliceExecFns;

use crate::frame::{BinaryColor, Frame};

verus! {

use crate::frame::{bit_set, on_screen, paint};
use crate::text::{byte_len, lemma_chars_within_bytes};

/// An off-screen picture the size of the panel.
type Mask = Framebuffer<MaskColor, RawU1, BigEndian, 400, 300, 15_000>;

/// The fixed-width fonts the screens are set in.
#[derive(Clone, Copy, Debug, PartialEq, Eq, Structural)]
pub enum Font {
    /// 6x10.
    Small,
    /// 6x13 bold.
    Bold,
    /// 8x13 bold.
    WideBold,
    /// 10x20.
    Big,
}

/// Advance of one character, in pixels.
pub open spec fn char_advance(font: Font) -> int {
    match font {
        Font::Small => 6,
        Font::Bold => 6,
        Font::WideBold => 8,
        Font::Big => 10,
    }
}

/// Height of one character, in pixels.
pub open spec fn char_height(font: Font) -> int {
    match font {
        Font::Small => 10,
        Font::Bold => 13,
        Font::WideBold => 13,
        Font::Big => 20,
    }
}

/// Pixel `(x, y)` of a mask: rows top-down, 50 bytes each, leftmost pixel in
/// the top bit.
pub open spec fn mask_bit(mask: Seq<u8>, x: int, y: int) -> bool {
    bit_set(mask[y * 50 + x / 8], 7 - x % 8)
}

/// The pixels a mask covers.
pub open spec fn mask_set(mask: Seq<u8>) -> Set<(int, int)> {
    Set::new(|p: (int, int)| on_screen(p.0, p.1) && mask_bit(mask, p.0, p.1))
}

/// The pixels of a filled rectangle.
pub open spec fn rect_shape(x: int, y: int, w: int, h: int) -> Set<(int, int)> {
    Set::new(|p: (int, int)| on_screen(p.0, p.1) && x <= p.0 < x + w && y <= p.1 < y + h)
}

/// The pixels of a rectangle's border, `stroke` pixels wide and centred on the
/// rectangle's edge, the odd pixel going inwards.
pub open spec fn border_shape(x: int, y: int, w: int, h: int, stroke: int) -> Set<(int, int)> {
    let out = stroke / 2;
    let inn = (stroke + 1) / 2;
    rect_shape(x - out, y - out, w + 2 * out, h + 2 * out).difference(
        rect_shape(x + inn, y + inn, w - 2 * inn, h - 2 * inn),
    )
}

/// The mask that `embedded-graphics` leaves for a line of text whose top left
/// corner is `(x, y)`.
pub uninterp spec fn text_bits(text: Seq<char>, x: int, y: int, font: Font) -> Seq<u8>;

/// The character cells of a line of text whose top left corner is `(x, y)`.
pub open spec fn cells(text: Seq<char>, x: int, y: int, font: Font) -> Set<(int, int)> {
    rect_shape(x, y, text.len() * char_advance(font), char_height(font))
}

/// The pixels of a text whose top left corner is `(x, y)`. Those of a single line
/// lie in its cells.
pub open spec fn text_shape(text: Seq<char>, x: int, y: int, font: Font) -> Set<(int, int)> {
    let covered = mask_set(text_bits(text, x, y, font));
    if text.contains('\n') {
        covered
    } else {
        covered.intersect(cells(text, x, y, font))
    }
}

/// The mask that `embedded-graphics` leaves for a line one pixel wide.
pub uninterp spec fn line_bits(x0: int, y0: int, x1: int, y1: int) -> Seq<u8>;

/// The pixels of a line one pixel wide, both ends included.
pub open spec fn line_shape(x0: int, y0: int, x1: int, y1: int) -> Set<(int, int)> {
    mask_set(line_bits(x0, y0, x1, y1))
}

/// Coordinates that drawing is defined for: far beyond the screen, and small
/// enough that the pen, with all it draws, stays inside `i32`.
pub open spec fn near(v: int) -> bool {
    -1_200_000_000 <= v <= 100_000_000
}

/// Length of text that drawing is defined for: the pen stays inside `i32`.
pub open spec fn drawable(text: Seq<char>) -> bool {
    byte_len(text) <= 100_000_000
}

/// Draws text on a mask with `embedded_graphics`' `Text::with_baseline` in a
/// `MonoTextStyle`, the baseline at the top. Claims that the mask depends on
/// the text, the corner and the font alone, that it is one bit per pixel of the
/// panel, and that a single line of text stays in its character cells.
#[verifier::external_body]
fn text_mask(text: &str, x: i32, y: i32, font: Font) -> (mask: Vec<u8>)
    requires
        near(x as int),
        near(y as int),
        drawable(text@),
    ensures
        mask@ == text_bits(text@, x as int, y as int, font),
        mask@.len() == 15_000,
        !text@.contains('\n') ==> mask_set(mask@).subset_of(
            cells(text@, x as int, y as int, font),
        ),
{
    let mut mask = Box::new(Mask::new());
    let font = match font {
        Font::Small => &FONT_6X10,
        Font::Bold => &FONT_6X13_BOLD,
        Font::WideBold => &FONT_8X13_BOLD,
        Font::Big => &FONT_10X20,
    };
    let style = MonoTextStyle::new(font, MaskColor::On);
    let _ = Text::with_baseline(text, Point::new(x, y), style, Baseline::Top).draw(&mut *mask);
    mask.data().to_vec()
}

/// Reads `character_size.width` of an `embedded_graphics` font. Claims the
/// widths that its font table lists.
#[verifier::external_body]
fn char_width(font: Font) -> (width: i32)
    ensures
        width == char_advance(font),
{
    let font = match font {
        Font::Small => &FONT_6X10,
        Font::Bold => &FONT_6X13_BOLD,
        Font::WideBold => &FONT_8X13_BOLD,
        Font::Big => &FONT_10X20,
    };
    font.character_size.width as i32
}

/// Fills an `embedded_graphics` `Rectangle` on a mask. Claims that the mask
/// covers the rectangle, for rectangles on the screen.
#[verifier::external_body]
fn rect_mask(x: i32, y: i32, w: i32, h: i32) -> (mask: Vec<u8>)
    requires
        0 <= x,
        0 <= y,
        0 < w <= 400 - x,
        0 < h <= 300 - y,
    ensures
        mask_set(mask@) == rect_shape(x as int, y as int, w as int, h as int),
        mask@.len() == 15_000,
{
    let mut mask = Box::new(Mask::new());
    let _ = Rectangle::new(Point::new(x, y), Size::new(w as u32, h as u32))
        .into_styled(PrimitiveStyle::with_fill(MaskColor::On))
        .draw(&mut *mask);
    mask.data().to_vec()
}

/// Strokes an `embedded_graphics` `Rectangle` on a mask. Claims that the stroke
/// is centred on the rectangle's edge; where it leaves no room inside, the whole
/// rectangle is covered.
#[verifier::external_body]
fn border_mask(x: i32, y: i32, w: i32, h: i32, stroke: u32) -> (mask: Vec<u8>)
    requires
        near(x as int),
        near(y as int),
        0 < stroke <= 100,
        0 < w <= 100_000,
        0 < h <= 100_000,
    ensures
        mask_set(mask@) == border_shape(x as int, y as int, w as int, h as int, stroke as int),
        mask@.len() == 15_000,
{
    let mut mask = Box::new(Mask::new());
    let _ = Rectangle::new(Point::new(x, y), Size::new(w as u32, h as u32))
        .into_styled(PrimitiveStyle::with_stroke(MaskColor::On, stroke))
        .draw(&mut *mask);
    mask.data().to_vec()
}

/// Strokes an `embedded_graphics` `Line` on a mask, one pixel wide. Claims that
/// the mask depends on the two ends alone, and that a line running right along
/// one row covers that row from one end to the other. How far apart the ends may
/// be is given by the squares that the algorithm computes in `i32`.
#[verifier::external_body]
fn line_mask(x0: i32, y0: i32, x1: i32, y1: i32) -> (mask: Vec<u8>)
    requires
        near(x0 as int),
        near(y0 as int),
        -10_000 <= x1 - x0 <= 10_000,
        -10_000 <= y1 - y0 <= 10_000,
    ensures
        mask@ == line_bits(x0 as int, y0 as int, x1 as int, y1 as int),
        mask@.len() == 15_000,
        y0 == y1 && x0 <= x1 ==> mask_set(mask@) == rect_shape(x0 as int, y0 as int, x1 - x0 + 1, 1),
{
    let mut mask = Box::new(Mask::new());
    let _ = Line::new(Point::new(x0, y0), Point::new(x1, y1))
        .into_styled(PrimitiveStyle::with_stroke(MaskColor::On, 1))
        .draw(&mut *mask);
    mask.data().to_vec()
}

/// The part of a mask that lies in its first `bytes` bytes, and in the first
/// `bits` pixels of the next one.
spec fn mask_prefix(mask: Seq<u8>, bytes: int, bits: int) -> Set<(int, int)> {
    Set::new(
        |p: (int, int)|
            on_screen(p.0, p.1) && mask_bit(mask, p.0, p.1) && (p.1 * 50 + p.0 / 8 < bytes || (p.1
                * 50 + p.0 / 8 == bytes && p.0 % 8 < bits)),
    )
}

/// Draw every pixel that the mask covers in one colour, and no other.
pub fn stamp(target: &mut Frame, mask: &Vec<u8>, ink: bool)
    requires
        mask@.len() == 15_000,
    ensures
        final(target)@ == paint(old(target)@, mask_set(mask@), ink),
{
    let color = if ink {
        BinaryColor::On
    } else {
        BinaryColor::Off
    };
    let mut i: usize = 0;
    assert(paint(target@, mask_prefix(mask@, 0, 0), ink) =~= target@);
    while i < 15_000
        invariant
            i <= 15_000,
            mask@.len() == 15_000,
            ink == (color == BinaryColor::On),
            target@ == paint(old(target)@, mask_prefix(mask@, i as int, 0), ink),
        decreases 15_000 - i,
    {
        let byte: u8 = mask[i];
        if byte != 0 {
            let y: u32 = (i / 50) as u32;
            let mut k: u32 = 0;
            while k < 8
                invariant
                    k <= 8,
                    i < 15_000,
                    y == i / 50,
                    byte == mask@[i as int],
                    ink == (color == BinaryColor::On),
                    target@ == paint(old(target)@, mask_prefix(mask@, i as int, k as int), ink),
                decreases 8 - k,
            {
                let x: u32 = ((i % 50) as u32) * 8 + k;
                assert(on_screen(x as int, y as int));
                assert(y * 50 + x / 8 == i && x % 8 == k);
                let shift: u8 = 7 - (k as u8);
                let ghost before = target@;
                if (byte >> shift) & 1 == 1 {
                    target.set_pixel(x, y, color);
                }
                proof {
                    lemma_prefix_grows(mask@, i as int, k as int);
                    let next = paint(old(target)@, mask_prefix(mask@, i as int, k + 1), ink);
                    assert(mask_bit(mask@, x as int, y as int) == ((byte >> shift) & 1 == 1));
                    assert(target@ =~= next);
                }
                k += 1;
            }
        }
        proof {
            let was = mask_prefix(mask@, i as int, 8);
            let next = mask_prefix(mask@, i + 1, 0);
            assert forall|p: (int, int)| was.contains(p) == next.contains(p) by {}
            assert(was =~= next);
            if byte == 0 {
                assert forall|p: (int, int)|
                    mask_prefix(mask@, i as int, 0).contains(p) == next.contains(p) by {
                    if on_screen(p.0, p.1) && p.1 * 50 + p.0 / 8 == i {
                        let bit = (7 - p.0 % 8) as u8;
                        assert((0u8 >> bit) & 1 == 0) by (bit_vector);
                    }
                }
                assert(mask_prefix(mask@, i as int, 0) =~= next);
            }
        }
        i += 1;
    }
    assert forall|p: (int, int)|
        mask_prefix(mask@, 15_000, 0).contains(p) == mask_set(mask@).contains(p) by {}
    assert(mask_prefix(mask@, 15_000, 0) =~= mask_set(mask@));
}

/// One more pixel of a mask.
proof fn lemma_prefix_grows(mask: Seq<u8>, i: int, k: int)
    requires
        0 <= i < 15_000,
        0 <= k < 8,
    ensures
        ({
            let p = ((i % 50) * 8 + k, i / 50);
            mask_prefix(mask, i, k + 1) == (if mask_bit(mask, p.0, p.1) {
                mask_prefix(mask, i, k).insert(p)
            } else {
                mask_prefix(mask, i, k)
            })
        }),
{
    let at = ((i % 50) * 8 + k, i / 50);
    let next = mask_prefix(mask, i, k + 1);
    let want = if mask_bit(mask, at.0, at.1) {
        mask_prefix(mask, i, k).insert(at)
    } else {
        mask_prefix(mask, i, k)
    };
    assert forall|p: (int, int)| next.contains(p) == want.contains(p) by {
        if on_screen(p.0, p.1) && p.1 * 50 + p.0 / 8 == i && p.0 % 8 == k {
            assert(p == at);
        }
    }
    assert(next =~= want);
}

/// Draw `s` with its top left corner at `(x, y)`.
pub fn text(target: &mut Frame, s: &str, x: i32, y: i32, font: Font, ink: bool)
    requires
        near(x as int),
        near(y as int),
        drawable(s@),
    ensures
        final(target)@ == paint(old(target)@, text_shape(s@, x as int, y as int, font), ink),
{
    let mask = text_mask(s, x, y, font);
    assert(mask_set(mask@) =~= text_shape(s@, x as int, y as int, font));
    stamp(target, &mask, ink);
}

/// Where text has to start to end at `right`.
pub open spec fn right_aligned(right: int, text: Seq<char>, font: Font) -> int {
    right - text.len() * char_advance(font)
}

/// Right-align `s` so that it ends at `right`.
pub fn text_right(target: &mut Frame, s: &str, right: i32, y: i32, font: Font, ink: bool)
    requires
        -100_000_000 <= right <= 100_000_000,
        near(y as int),
        drawable(s@),
    ensures
        final(target)@ == paint(
            old(target)@,
            text_shape(s@, right_aligned(right as int, s@, font), y as int, font),
            ink,
        ),
{
    proof {
        lemma_chars_within_bytes(s@);
    }
    let advance: i32 = char_width(font);
    let count: i32 = s.unicode_len() as i32;
    proof {
        let c = char_advance(font);
        assert(0 <= s@.len() * c <= 1_000_000_000) by (nonlinear_arith)
            requires
                0 <= s@.len() <= 100_000_000,
                0 <= c <= 10,
        ;
    }
    text(target, s, right - count * advance, y, font, ink);
}

/// Right-aligned text ends at `right`: its cells lie left of it, and the last of
/// them touches it.
pub proof fn law_right_aligned_text_ends_at_right(right: int, text: Seq<char>, y: int, font: Font)
    requires
        !text.contains('\n'),
    ensures
        right_aligned(right, text, font) + text.len() * char_advance(font) == right,
        forall|p: (int, int)|
            text_shape(text, right_aligned(right, text, font), y, font).contains(p) ==> p.0
                < right,
{
}

/// Empty text covers nothing.
pub proof fn law_empty_text_covers_nothing(x: int, y: int, font: Font)
    ensures
        text_shape(Seq::empty(), x, y, font) == Set::<(int, int)>::empty(),
{
    assert(text_shape(Seq::empty(), x, y, font) =~= Set::<(int, int)>::empty());
}

/// `v`, or the nearer edge of a screen of `limit` pixels that it lies beyond.
spec fn on_edge(v: int, limit: int) -> int {
    if v < 0 {
        0
    } else if v > limit {
        limit
    } else {
        v
    }
}

/// Where a span of `len` pixels from `at` starts and how long it is on a screen
/// of `limit` pixels.
fn clipped(at: i32, len: i32, limit: i32) -> (span: (i32, i32))
    requires
        0 < len,
        0 < limit <= 400,
    ensures
        span.0 == on_edge(at as int, limit as int),
        span.1 == on_edge(at + len, limit as int) - on_edge(at as int, limit as int),
{
    let end: i64 = at as i64 + len as i64;
    let end: i32 = if end < limit as i64 {
        if end < 0 {
            0
        } else {
            end as i32
        }
    } else {
        limit
    };
    let start: i32 = if at < 0 {
        0
    } else if at > limit {
        limit
    } else {
        at
    };
    (start, end - start)
}

/// Fill a rectangle. An empty one draws nothing.
pub fn fill(target: &mut Frame, x: i32, y: i32, w: i32, h: i32, ink: bool)
    ensures
        final(target)@ == paint(
            old(target)@,
            rect_shape(x as int, y as int, w as int, h as int),
            ink,
        ),
{
    let ghost shape = rect_shape(x as int, y as int, w as int, h as int);
    if w <= 0 || h <= 0 {
        assert(paint(target@, shape, ink) =~= target@);
        return;
    }
    let (left, width): (i32, i32) = clipped(x, w, 400);
    let (top, height): (i32, i32) = clipped(y, h, 300);
    if width <= 0 || height <= 0 {
        assert(paint(target@, shape, ink) =~= target@);
        return;
    }
    assert(rect_shape(left as int, top as int, width as int, height as int) =~= shape);
    let mask = rect_mask(left, top, width, height);
    stamp(target, &mask, ink);
}

/// Draw a rectangle's border in ink.
pub fn outline(target: &mut Frame, x: i32, y: i32, w: i32, h: i32, stroke: u32)
    requires
        near(x as int),
        near(y as int),
        0 < stroke <= 100,
        0 < w <= 100_000,
        0 < h <= 100_000,
    ensures
        final(target)@ == paint(
            old(target)@,
            border_shape(x as int, y as int, w as int, h as int, stroke as int),
            true,
        ),
{
    let mask = border_mask(x, y, w, h, stroke);
    stamp(target, &mask, true);
}

/// Draw a line in ink, one pixel wide.
pub fn line(target: &mut Frame, x0: i32, y0: i32, x1: i32, y1: i32)
    requires
        near(x0 as int),
        near(y0 as int),
        -10_000 <= x1 - x0 <= 10_000,
        -10_000 <= y1 - y0 <= 10_000,
    ensures
        final(target)@ == paint(
            old(target)@,
            line_shape(x0 as int, y0 as int, x1 as int, y1 as int),
            true,
        ),
        y0 == y1 && x0 <= x1 ==> final(target)@ == paint(
            old(target)@,
            rect_shape(x0 as int, y0 as int, x1 - x0 + 1, 1),
            true,
        ),
{
    let mask = line_mask(x0, y0, x1, y1);
    stamp(target, &mask, true);
}

/// The sizes of the fonts' character cells.
pub proof fn law_font_sizes()
    ensures
        char_advance(Font::Small) == 6 && char_height(Font::Small) == 10,
        char_advance(Font::Bold) == 6 && char_height(Font::Bold) == 13,
        char_advance(Font::WideBold) == 8 && char_height(Font::WideBold) == 13,
        char_advance(Font::Big) == 10 && char_height(Font::Big) == 20,
{
}

/// Eight pixels that lie side by side share a byte of a mask, the leftmost in its top
/// bit, and fifty bytes make a row.
pub proof fn law_mask_pixels(mask: Seq<u8>, at: int, k: int)
    requires
        0 <= at < 15_000,
        0 <= k < 8,
    ensures
        mask_set(mask).contains((8 * (at % 50) + k, at / 50)) <==> bit_set(mask[at], 7 - k),
        forall|p: (int, int)| #[trigger]
            mask_set(mask).contains(p) ==> 0 <= p.0 < 400 && 0 <= p.1 < 300,
{
    let x = 8 * (at % 50) + k;
    assert(x / 8 == at % 50 && x % 8 == k);
}

/// A rectangle covers `w` columns from `x` on and `h` rows from `y` on, as far as they are
/// on the screen.
pub proof fn law_rectangle_pixels(x: int, y: int, w: int, h: int, i: int, j: int)
    ensures
        rect_shape(x, y, w, h).contains((x + i, y + j)) <==> {
            &&& 0 <= i < w
            &&& 0 <= j < h
            &&& 0 <= x + i < 400
            &&& 0 <= y + j < 300
        },
{
}

/// The border of a rectangle, one pixel wide, is its outermost columns and rows.
pub proof fn law_thin_border_pixels(x: int, y: int, w: int, h: int, p: (int, int))
    ensures
        border_shape(x, y, w, h, 1).contains(p) <==> {
            &&& rect_shape(x, y, w, h).contains(p)
            &&& p.0 == x || p.0 == x + w - 1 || p.1 == y || p.1 == y + h - 1
        },
{
}

/// A border is as wide as its stroke: half of it lies outside of the rectangle, and the odd
/// pixel inside. Between its top and its bottom it covers that many columns on either side.
pub proof fn law_border_width(x: int, y: int, w: int, h: int, stroke: int, p: (int, int))
    requires
        0 < stroke,
        y + stroke <= p.1 < y + h - stroke,
        0 <= p.0 < 400,
        0 <= p.1 < 300,
        2 * stroke <= w,
    ensures
        border_shape(x, y, w, h, stroke).contains(p) <==> {
            let (left, right) = (x - stroke / 2, x + w + stroke / 2);
            left <= p.0 < left + stroke || right - stroke <= p.0 < right
        },
{
}

/// Text of one line stays right of its corner and below it, no wider than its characters
/// and no higher than its font.
pub proof fn law_text_stays_in_its_cells(text: Seq<char>, x: int, y: int, p: (int, int))
    requires
        !text.contains('\n'),
    ensures
        text_shape(text, x, y, Font::Small).contains(p) ==> x <= p.0 < x + 6 * text.len() && y
            <= p.1 < y + 10,
        text_shape(text, x, y, Font::Bold).contains(p) ==> x <= p.0 < x + 6 * text.len() && y
            <= p.1 < y + 13,
        text_shape(text, x, y, Font::WideBold).contains(p) ==> x <= p.0 < x + 8 * text.len() && y
            <= p.1 < y + 13,
        text_shape(text, x, y, Font::Big).contains(p) ==> x <= p.0 < x + 10 * text.len() && y
            <= p.1 < y + 20,
{
}

} // verus!
