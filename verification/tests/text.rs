use homelab::text::{to_decimal, to_two_digits, Line, Number};

#[test]
fn decimal_digits() {
    assert_eq!(to_decimal(0), "0");
    assert_eq!(to_decimal(7), "7");
    assert_eq!(to_decimal(1024), "1024");
    assert_eq!(to_decimal(u32::MAX), "4294967295");
    assert_eq!(to_two_digits(5), "05");
    assert_eq!(to_two_digits(42), "42");
}

#[test]
fn line_takes_whole_pieces_only() {
    let line = Line::<8>::new().put("abc").put("defgh");
    assert_eq!(line.finish(), "abcdefgh");
    let line = Line::<8>::new().put("abc").put("defghi").put("x");
    assert_eq!(line.finish(), "abc");
}

#[test]
fn line_counts_bytes() {
    let line = Line::<4>::new().put("\u{e9}\u{e9}").put("a");
    assert_eq!(line.finish(), "\u{e9}\u{e9}");
    let line = Line::<5>::new().put("\u{e9}\u{e9}").put("a");
    assert_eq!(line.finish(), "\u{e9}\u{e9}a");
}

#[test]
fn number_is_written_piece_by_piece() {
    let number = Number { pieces: vec!["-".to_string(), "123".to_string(), ".".to_string(), "45".to_string()] };
    assert_eq!(Line::<7>::new().put_number(&number).put("C").finish(), "-123.45");
    assert_eq!(Line::<8>::new().put_number(&number).put("C").finish(), "-123.45C");
    assert_eq!(Line::<6>::new().put_number(&number).put("C").finish(), "-123.");
    assert_eq!(Line::<3>::new().put_number(&number).finish(), "-");
}
