use homelab::frame::{BinaryColor, Frame};
use homelab::raster;
use homelab::raster::{fill, outline, stamp, text, text_right, Font};

fn inked(frame: &Frame, x: usize, y: usize) -> bool {
    let inv_y = 299 - y;
    let bit = 7 - ((inv_y % 4) * 2 + x % 2);
    (frame.as_bytes()[(x / 2) * 75 + inv_y / 4] >> bit) & 1 == 0
}

fn count(frame: &Frame) -> u32 {
    frame.as_bytes().iter().map(|b| b.count_zeros()).sum()
}

#[test]
fn stamp_covers_the_mask_alone() {
    let mut mask = vec![0u8; 15_000];
    mask[0] = 0x81;
    mask[14_999] = 0x01;
    let mut frame = Frame::new();
    stamp(&mut frame, &mask, true);
    assert_eq!(count(&frame), 3);
    assert!(inked(&frame, 0, 0) && inked(&frame, 7, 0) && inked(&frame, 399, 299));
    stamp(&mut frame, &mask, false);
    assert_eq!(count(&frame), 0);
}

#[test]
fn filled_rectangle() {
    let mut frame = Frame::new();
    fill(&mut frame, 10, 20, 30, 4, true);
    assert_eq!(count(&frame), 120);
    assert!(inked(&frame, 10, 20) && inked(&frame, 39, 23));
    assert!(!inked(&frame, 9, 20) && !inked(&frame, 40, 23) && !inked(&frame, 10, 24));
    fill(&mut frame, 10, 20, 10, 4, false);
    assert_eq!(count(&frame), 80);
}

#[test]
fn rectangle_is_cut_at_the_screen() {
    let mut frame = Frame::new();
    fill(&mut frame, 390, 295, 9_830_250, 6, true);
    assert_eq!(count(&frame), 50);
    fill(&mut frame, -5, -5, 7, 7, true);
    assert_eq!(count(&frame), 54);
}

#[test]
fn empty_rectangle_draws_nothing() {
    let mut frame = Frame::new();
    fill(&mut frame, 10, 20, 0, 4, true);
    fill(&mut frame, 10, 20, 4, 0, true);
    fill(&mut frame, 10, 20, -4, 4, true);
    assert_eq!(count(&frame), 0);
}

#[test]
fn border_one_pixel_wide() {
    let mut frame = Frame::new();
    outline(&mut frame, 4, 47, 150, 4, 1);
    assert_eq!(count(&frame), 2 * 150 + 2 * 2);
    assert!(inked(&frame, 4, 47) && inked(&frame, 153, 50));
    assert!(!inked(&frame, 5, 48) && !inked(&frame, 3, 47) && !inked(&frame, 154, 47));
}

#[test]
fn border_three_pixels_wide_is_centred() {
    let mut frame = Frame::new();
    outline(&mut frame, 50, 60, 20, 10, 3);
    assert!(inked(&frame, 49, 59) && inked(&frame, 51, 61));
    assert!(!inked(&frame, 48, 60) && !inked(&frame, 52, 62));
    assert!(inked(&frame, 70, 70) && inked(&frame, 68, 68));
    assert!(!inked(&frame, 71, 70) && !inked(&frame, 67, 67));
    assert_eq!(count(&frame), 22 * 12 - 16 * 6);
    let mut edge = Frame::new();
    outline(&mut edge, 0, 0, 400, 300, 3);
    assert_eq!(count(&edge), 400 * 300 - 396 * 296);
}

#[test]
fn horizontal_line_includes_both_ends() {
    let mut frame = Frame::new();
    raster::line(&mut frame, 4, 30, 396, 30);
    assert_eq!(count(&frame), 393);
    assert!(inked(&frame, 4, 30) && inked(&frame, 396, 30));
    assert!(!inked(&frame, 3, 30) && !inked(&frame, 397, 30));
}

#[test]
fn diagonal_includes_both_ends() {
    let mut frame = Frame::new();
    raster::line(&mut frame, 399, 0, 0, 299);
    assert_eq!(count(&frame), 400);
    assert!(inked(&frame, 399, 0) && inked(&frame, 0, 299));
}

#[test]
fn text_stays_in_its_cells() {
    for (font, w, h) in [
        (Font::Small, 6, 10),
        (Font::Bold, 6, 13),
        (Font::WideBold, 8, 13),
        (Font::Big, 10, 20),
    ] {
        let mut frame = Frame::new();
        text(&mut frame, "HI", 20, 40, font, true);
        assert!(count(&frame) > 0);
        for x in 0..400usize {
            for y in 0..300usize {
                if inked(&frame, x, y) {
                    assert!(x >= 20 && x < 20 + 2 * w && y >= 40 && y < 40 + h);
                }
            }
        }
    }
}

#[test]
fn different_text_draws_differently() {
    let mut a = Frame::new();
    let mut b = Frame::new();
    text(&mut a, "STALE", 4, 5, Font::Big, true);
    text(&mut b, "HOMELAB", 4, 5, Font::Big, true);
    assert!(a.as_bytes()[..] != b.as_bytes()[..]);
    let mut c = Frame::new();
    text(&mut c, "STALE", 5, 5, Font::Big, true);
    assert!(a.as_bytes()[..] != c.as_bytes()[..]);
}

#[test]
fn background_text_on_ink() {
    let mut plain = Frame::new();
    text(&mut plain, "STALE", 4, 5, Font::Big, true);
    let pixels = count(&plain);
    let mut frame = Frame::new();
    frame.clear(BinaryColor::On);
    text(&mut frame, "STALE", 4, 5, Font::Big, false);
    assert_eq!(count(&frame), 120_000 - pixels);
}

#[test]
fn right_aligned_text_ends_at_the_edge() {
    for (font, width) in [
        (Font::Small, 6),
        (Font::Bold, 6),
        (Font::WideBold, 8),
        (Font::Big, 10),
    ] {
        let mut a = Frame::new();
        let mut b = Frame::new();
        text_right(&mut a, "12/13", 396, 100, font, true);
        text(&mut b, "12/13", 396 - 5 * width, 100, font, true);
        assert!(count(&a) > 0);
        assert!(a.as_bytes()[..] == b.as_bytes()[..]);
    }
}

#[test]
fn alignment_counts_characters() {
    let mut a = Frame::new();
    let mut b = Frame::new();
    text_right(&mut a, "21\u{b0}C", 396, 100, Font::Small, true);
    text(&mut b, "21\u{b0}C", 396 - 4 * 6, 100, Font::Small, true);
    assert!(a.as_bytes()[..] == b.as_bytes()[..]);

    let mut a = Frame::new();
    let mut b = Frame::new();
    text_right(&mut a, "\u{e9}", 100, 0, Font::Small, true);
    text(&mut b, "\u{e9}", 94, 0, Font::Small, true);
    assert!(count(&a) > 0);
    assert!(a.as_bytes()[..] == b.as_bytes()[..]);
}

#[test]
fn alignment_far_off_the_screen() {
    let mut frame = Frame::new();
    text_right(&mut frame, "gone", -50_000_000, 0, Font::Big, true);
    text_right(&mut frame, "gone", 90_000_000, 0, Font::Big, true);
    assert_eq!(count(&frame), 0);
}

#[test]
fn empty_text_draws_nothing() {
    let mut frame = Frame::new();
    text(&mut frame, "", 20, 40, Font::Big, true);
    text_right(&mut frame, "", 100, 40, Font::Small, true);
    assert_eq!(count(&frame), 0);
}

#[test]
fn text_with_a_line_break_goes_on_below() {
    let mut a = Frame::new();
    let mut b = Frame::new();
    text(&mut a, "up\ndown", 20, 40, Font::Small, true);
    text(&mut b, "up", 20, 40, Font::Small, true);
    text(&mut b, "down", 20, 50, Font::Small, true);
    assert!(a.as_bytes()[..] == b.as_bytes()[..]);
}

#[test]
fn huge_rectangles_are_cut_at_once() {
    let mut frame = Frame::new();
    fill(&mut frame, i32::MIN, i32::MIN, i32::MAX, i32::MAX, true);
    assert_eq!(count(&frame), 0);
    fill(&mut frame, i32::MAX, 0, i32::MAX, i32::MAX, true);
    assert_eq!(count(&frame), 0);
    fill(&mut frame, -1, -1, i32::MAX, i32::MAX, true);
    assert_eq!(count(&frame), 120_000);
}

#[test]
fn small_borders_leave_no_room_inside() {
    for (w, h, stroke, pixels) in [(1, 1, 1, 1), (2, 5, 1, 10), (5, 2, 1, 10), (1, 1, 3, 9), (3, 9, 3, 5 * 11)] {
        let mut frame = Frame::new();
        outline(&mut frame, 50, 60, w, h, stroke);
        assert_eq!(count(&frame), pixels, "{}x{} stroke {}", w, h, stroke);
    }
}

#[test]
fn lines_off_the_screen() {
    let mut frame = Frame::new();
    raster::line(&mut frame, -5, 30, 4, 30);
    assert_eq!(count(&frame), 5);
    raster::line(&mut frame, 0, -1, 399, -1);
    raster::line(&mut frame, 90_000_000, 0, 90_010_000, 10_000);
    assert_eq!(count(&frame), 5);
}
