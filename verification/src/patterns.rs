//! Test patterns for bringing up the panel.
//!
//! They split one ambiguous symptom, nothing on the screen, into different
//! problems: a panel that shows none of them never got the data; wrong packing
//! survives the solid fills and falls apart in the geometry; readable text proves
//! the mapping end to end.

use vstd::prelude::*;

use crate::frame::{BinaryColor, Frame};
use crate::raster::{fill, line, outline, text, Font};

verus! {

use crate::frame::{paint, whole_screen};
use crate::raster::{border_shape, line_shape, rect_shape, text_shape};
use crate::text::lemma_ascii_byte_len;

/// How long each pattern stays.
pub const HOLD_MS: u32 = 5000;

/// The patterns, in the order in which they are shown.
#[derive(Clone, Copy, Debug, PartialEq, Eq, Structural)]
pub enum Pattern {
    /// A fully dark screen.
    AllInk,
    /// A fully light screen.
    AllBackground,
    /// Two quadrants, a border and the diagonals.
    Quadrants,
    /// Text, with two corners labelled.
    Text,
}

/// The picture of a pattern.
pub open spec fn pattern_screen(pattern: Pattern) -> Set<(int, int)> {
    match pattern {
        Pattern::AllInk => whole_screen(),
        Pattern::AllBackground => Set::empty(),
        Pattern::Quadrants => {
            let c = paint(Set::empty(), rect_shape(0, 0, 200, 150), true);
            let c = paint(c, rect_shape(200, 150, 200, 150), true);
            let c = paint(c, border_shape(0, 0, 400, 300, 3), true);
            let c = paint(c, line_shape(0, 0, 399, 299), true);
            paint(c, line_shape(399, 0, 0, 299), true)
        },
        Pattern::Text => {
            let c = paint(Set::empty(), text_shape("ST7305 OK"@, 20, 120, Font::Big), true);
            let c = paint(c, text_shape("TOP LEFT"@, 4, 4, Font::Big), true);
            paint(c, text_shape("BOTTOM RIGHT"@, 276, 278, Font::Big), true)
        },
    }
}

impl Pattern {
    /// The pattern that follows this one; they go round.
    pub fn next(self) -> (next: Pattern)
        ensures
            next == (match self {
                Pattern::AllInk => Pattern::AllBackground,
                Pattern::AllBackground => Pattern::Quadrants,
                Pattern::Quadrants => Pattern::Text,
                Pattern::Text => Pattern::AllInk,
            }),
    {
        match self {
            Pattern::AllInk => Pattern::AllBackground,
            Pattern::AllBackground => Pattern::Quadrants,
            Pattern::Quadrants => Pattern::Text,
            Pattern::Text => Pattern::AllInk,
        }
    }

    /// The pattern's name on the console.
    pub fn label(self) -> (label: &'static str)
        ensures
            label@ == (match self {
                Pattern::AllInk => "all-ink"@,
                Pattern::AllBackground => "all-bg"@,
                Pattern::Quadrants => "quadrants"@,
                Pattern::Text => "text"@,
            }),
    {
        match self {
            Pattern::AllInk => "all-ink",
            Pattern::AllBackground => "all-bg",
            Pattern::Quadrants => "quadrants",
            Pattern::Text => "text",
        }
    }

    /// What the pattern is and what to expect of it, for the console.
    pub fn announcement(self) -> (line: &'static str)
        ensures
            line@ == (match self {
                Pattern::AllInk => "1/4 ALL INK \u{2014} expect a fully dark screen"@,
                Pattern::AllBackground =>
                    "2/4 ALL BACKGROUND \u{2014} expect a fully light screen"@,
                Pattern::Quadrants =>
                    "3/4 QUADRANTS + BORDER + DIAGONALS \u{2014} expect crisp geometry"@,
                Pattern::Text => "4/4 TEXT \u{2014} expect readable text and corner labels"@,
            }),
    {
        match self {
            Pattern::AllInk => "1/4 ALL INK \u{2014} expect a fully dark screen",
            Pattern::AllBackground => "2/4 ALL BACKGROUND \u{2014} expect a fully light screen",
            Pattern::Quadrants =>
                "3/4 QUADRANTS + BORDER + DIAGONALS \u{2014} expect crisp geometry",
            Pattern::Text => "4/4 TEXT \u{2014} expect readable text and corner labels",
        }
    }

    /// Draw the pattern.
    pub fn draw(self, target: &mut Frame)
        ensures
            final(target)@ == pattern_screen(self),
    {
        match self {
            Pattern::AllInk => {
                target.clear(BinaryColor::On);
            },
            Pattern::AllBackground => {
                target.clear(BinaryColor::Off);
            },
            Pattern::Quadrants => {
                target.clear(BinaryColor::Off);
                fill(target, 0, 0, 200, 150, true);
                fill(target, 200, 150, 200, 150, true);
                outline(target, 0, 0, 400, 300, 3);
                line(target, 0, 0, 399, 299);
                line(target, 399, 0, 0, 299);
            },
            Pattern::Text => {
                proof {
                    reveal_strlit("ST7305 OK");
                    reveal_strlit("TOP LEFT");
                    reveal_strlit("BOTTOM RIGHT");
                    lemma_ascii_byte_len("ST7305 OK"@);
                    lemma_ascii_byte_len("TOP LEFT"@);
                    lemma_ascii_byte_len("BOTTOM RIGHT"@);
                }
                target.clear(BinaryColor::Off);
                text(target, "ST7305 OK", 20, 120, Font::Big, true);
                text(target, "TOP LEFT", 4, 4, Font::Big, true);
                text(target, "BOTTOM RIGHT", 276, 278, Font::Big, true);
            },
        }
    }
}

/// The two solid fills differ in every pixel, so whichever of them the panel
/// happens to power up with, the other one proves that the change is driven.
pub proof fn law_solid_fills_are_opposites(p: (int, int))
    requires
        crate::frame::on_screen(p.0, p.1),
    ensures
        pattern_screen(Pattern::AllInk).contains(p) != pattern_screen(
            Pattern::AllBackground,
        ).contains(p),
{
}

/// Which pixels the geometry covers: the upper left and the lower right quarter, a
/// border that is two pixels wide on the screen, and both diagonals. Nothing else.
pub proof fn law_geometry(p: (int, int))
    requires
        crate::frame::on_screen(p.0, p.1),
    ensures
        pattern_screen(Pattern::Quadrants).contains(p) <==> {
            ||| p.0 < 200 && p.1 < 150
            ||| p.0 >= 200 && p.1 >= 150
            ||| p.0 < 2 || p.0 >= 398 || p.1 < 2 || p.1 >= 298
            ||| line_shape(0, 0, 399, 299).contains(p)
            ||| line_shape(399, 0, 0, 299).contains(p)
        },
{
}

/// Which pixels the text pattern covers: those of its three texts.
pub proof fn law_labels(p: (int, int))
    ensures
        pattern_screen(Pattern::Text).contains(p) <==> {
            ||| text_shape("ST7305 OK"@, 20, 120, Font::Big).contains(p)
            ||| text_shape("TOP LEFT"@, 4, 4, Font::Big).contains(p)
            ||| text_shape("BOTTOM RIGHT"@, 276, 278, Font::Big).contains(p)
        },
{
}

} // verus!
