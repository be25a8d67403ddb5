use homelab::frame::{is_ink, BinaryColor, Frame, BUF_LEN, HEIGHT, WIDTH};

const ON: BinaryColor = BinaryColor::On;
const OFF: BinaryColor = BinaryColor::Off;

#[test]
fn fresh_frame_is_background() {
    let frame = Frame::new();
    assert_eq!(frame.as_bytes().len(), BUF_LEN);
    assert!(frame.as_bytes().iter().all(|b| *b == 0xFF));
}

#[test]
fn ink_is_on() {
    assert!(is_ink(ON));
    assert!(!is_ink(OFF));
}

#[test]
fn clear_fills_every_byte() {
    let mut frame = Frame::new();
    frame.clear(ON);
    assert!(frame.as_bytes().iter().all(|b| *b == 0x00));
    frame.clear(OFF);
    assert!(frame.as_bytes().iter().all(|b| *b == 0xFF));
}

#[test]
fn corner_pixels_have_known_bits() {
    let corners = [
        (0u32, 299u32, 0usize, 0x7Fu8),
        (1, 299, 0, 0xBF),
        (0, 298, 0, 0xDF),
        (0, 0, 74, 0xFD),
        (399, 299, 14_925, 0xBF),
        (399, 0, 14_999, 0xFE),
    ];
    for (x, y, index, byte) in corners {
        let mut frame = Frame::new();
        frame.set_pixel(x, y, ON);
        assert_eq!(frame.as_bytes()[index], byte, "pixel {} {}", x, y);
        assert_eq!(frame.as_bytes().iter().filter(|b| **b != 0xFF).count(), 1);
        frame.set_pixel(x, y, OFF);
        assert!(frame.as_bytes().iter().all(|b| *b == 0xFF));
    }
}

#[test]
fn packing_is_a_bijection() {
    let mut frame = Frame::new();
    let mut clear_bits: u32 = 0;
    for x in 0..WIDTH {
        for y in 0..HEIGHT {
            let index = (x as usize / 2) * 75 + (299 - y as usize) / 4;
            let before = frame.as_bytes()[index].count_zeros();
            frame.set_pixel(x, y, ON);
            assert_eq!(frame.as_bytes()[index].count_zeros(), before + 1);
            clear_bits += 1;
        }
    }
    assert_eq!(clear_bits, 120_000);
    assert!(frame.as_bytes().iter().all(|b| *b == 0x00));
}

#[test]
fn pixels_off_the_screen_are_ignored() {
    let mut frame = Frame::new();
    frame.set_pixel(400, 0, ON);
    frame.set_pixel(0, 300, ON);
    frame.set_pixel(u32::MAX, u32::MAX, ON);
    frame.draw_iter(&[(-1, 5, ON), (5, -1, ON), (400, 5, ON), (5, 300, ON), (i32::MIN, 0, ON)]);
    assert!(frame.as_bytes().iter().all(|b| *b == 0xFF));
}

#[test]
fn later_pixels_win() {
    let mut frame = Frame::new();
    frame.draw_iter(&[(0, 299, ON), (1, 299, ON), (0, 299, OFF)]);
    assert_eq!(frame.as_bytes()[0], 0xBF);
}
