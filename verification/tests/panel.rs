use homelab::frame::BinaryColor;
use homelab::st7305::{Action, Error, St7305, Step};

type Panel = St7305<u8, (), (), ()>;

fn panel() -> Panel {
    St7305::new(7, (), (), ())
}

/// Performs the operation under way; action number `fail` fails.
fn perform(panel: &mut Panel, fail: Option<usize>) -> (Vec<Action>, Result<(), Error>) {
    let mut done = Vec::new();
    loop {
        match panel.step() {
            Step::Do(action) => {
                let ok = fail != Some(done.len());
                done.push(action);
                panel.report(ok);
            }
            Step::Done(result) => return (done, result),
        }
    }
}

fn byte(data: bool, b: u8) -> Vec<Action> {
    let dc = if data { Action::DcHigh } else { Action::DcLow };
    vec![Action::CsLow, dc, Action::SendByte(b), Action::CsHigh]
}

fn shipping() -> Vec<Action> {
    let mut all = Vec::new();
    for (data, b) in [(false, 0x2A), (true, 0x12), (true, 0x2A), (false, 0x2B), (true, 0x00), (true, 0xC7), (false, 0x2C)] {
        all.extend(byte(data, b));
    }
    all.extend([Action::CsLow, Action::DcHigh, Action::SendFrame, Action::CsHigh]);
    all
}

#[test]
fn fresh_panel_has_nothing_to_do() {
    let mut p = panel();
    assert_eq!(p.step(), Step::Done(Ok(())));
    assert_eq!(p.size(), (400, 300));
    assert_eq!(*p.bus(), 7);
    *p.bus() = 9;
    assert_eq!(p.spi, 9);
    assert!(p.frame.as_bytes().iter().all(|b| *b == 0xFF));
}

#[test]
fn flush_frames_every_byte() {
    let mut p = panel();
    p.flush();
    let (done, result) = perform(&mut p, None);
    assert_eq!(result, Ok(()));
    assert_eq!(done, shipping());
}

#[test]
fn init_follows_the_power_on_sequence() {
    let mut p = panel();
    p.clear(BinaryColor::On);
    p.init();
    let (done, result) = perform(&mut p, None);
    assert_eq!(result, Ok(()));
    assert_eq!(
        done[..7],
        [
            Action::CsHigh,
            Action::RstHigh,
            Action::DelayMs(50),
            Action::RstLow,
            Action::DelayMs(20),
            Action::RstHigh,
            Action::DelayMs(50),
        ]
    );
    let commands = done
        .windows(2)
        .filter_map(|w| match (w[0], w[1]) {
            (Action::DcLow, Action::SendByte(b)) => Some(b),
            _ => None,
        })
        .collect::<Vec<u8>>();
    assert_eq!(
        commands,
        [
            0xD6, 0xD1, 0xC0, 0xC1, 0xC2, 0xC4, 0xC5, 0xD8, 0xB2, 0xB3, 0xB4, 0x62, 0xB7, 0xB0,
            0x11, 0xC9, 0x36, 0x3A, 0xB9, 0xB8, 0x21, 0x2A, 0x2B, 0x35, 0xD0, 0x38, 0x29, 0x2A,
            0x2B, 0x2C
        ]
    );
    let params = done
        .windows(2)
        .filter(|w| matches!((w[0], w[1]), (Action::DcHigh, Action::SendByte(_))))
        .count();
    assert_eq!(params, 47 + 11 + 4);
    let wake = done.iter().position(|a| *a == Action::DelayMs(200)).unwrap();
    assert_eq!(done[wake - 4..wake], byte(false, 0x11)[..]);
    assert!(done.ends_with(&shipping()));
    assert!(!done.contains(&Action::Blank));
    assert!(p.frame.as_bytes().iter().all(|b| *b == 0xFF));
}

#[test]
fn command_sends_one_byte_per_transaction() {
    let mut expected = byte(false, 0xC0);
    expected.extend(byte(true, 0x11));
    expected.extend(byte(true, 0x04));
    let mut p = panel();
    p.clear(BinaryColor::On);
    p.command(0xC0, &[0x11, 0x04]);
    assert_eq!(perform(&mut p, None), (expected.clone(), Ok(())));
    p.command(0xC0, &[0x11, 0x04]);
    let mut cut = expected[..7].to_vec();
    cut.push(Action::CsHigh);
    assert_eq!(perform(&mut p, Some(6)), (cut, Err(Error::Spi)));
    p.command(0xC0, &[0x11, 0x04]);
    assert_eq!(perform(&mut p, Some(7)), (expected[..8].to_vec(), Err(Error::Gpio)));
    p.command(0x29, &[]);
    assert_eq!(perform(&mut p, None), (byte(false, 0x29), Ok(())));
    assert!(p.frame.as_bytes().iter().all(|b| *b == 0x00));
}

#[test]
fn single_transaction() {
    let mut p = panel();
    p.transaction(true, Action::SendFrame);
    assert_eq!(
        perform(&mut p, None),
        (vec![Action::CsLow, Action::DcHigh, Action::SendFrame, Action::CsHigh], Ok(()))
    );
}

#[test]
fn flush_leaves_the_frame_alone() {
    let mut p = panel();
    p.clear(BinaryColor::On);
    for fail in [None, Some(0), Some(9), Some(30)] {
        p.flush();
        perform(&mut p, fail);
        assert!(p.frame.as_bytes().iter().all(|b| *b == 0x00));
    }
}

#[test]
fn init_ships_a_blank_frame() {
    let mut p = panel();
    p.clear(BinaryColor::On);
    p.init();
    let mut shipped = false;
    while let Step::Do(action) = p.step() {
        if action == Action::SendFrame {
            assert!(!shipped);
            assert!(p.frame.as_bytes().iter().all(|b| *b == 0xFF));
            shipped = true;
        } else if shipped {
            assert_eq!(action, Action::CsHigh);
        }
        p.report(true);
    }
    assert!(shipped);
    assert_eq!(p.step(), Step::Done(Ok(())));
}

#[test]
fn frame_is_blanked_only_once_configured() {
    let mut p = panel();
    p.clear(BinaryColor::On);
    p.init();
    let (done, result) = perform(&mut p, Some(100));
    assert!(result.is_err());
    assert!(done.len() <= 102);
    assert!(p.frame.as_bytes().iter().all(|b| *b == 0x00));
}

#[test]
fn bus_failure_releases_chip_select() {
    let mut p = panel();
    p.flush();
    let (done, result) = perform(&mut p, Some(2));
    assert_eq!(result, Err(Error::Spi));
    assert_eq!(done, byte(false, 0x2A));
}

#[test]
fn data_command_failure_releases_chip_select() {
    let mut p = panel();
    p.flush();
    let (done, result) = perform(&mut p, Some(5));
    assert_eq!(result, Err(Error::Gpio));
    assert_eq!(done[4..], [Action::CsLow, Action::DcHigh, Action::CsHigh]);
}

#[test]
fn frame_failure_releases_chip_select() {
    let mut p = panel();
    p.flush();
    let (done, result) = perform(&mut p, Some(30));
    assert_eq!(result, Err(Error::Spi));
    assert_eq!(done.len(), 32);
    assert_eq!(done[30..], [Action::SendFrame, Action::CsHigh]);
}

#[test]
fn chip_select_failures_end_the_operation() {
    let mut p = panel();
    p.flush();
    let (done, result) = perform(&mut p, Some(0));
    assert_eq!((done.len(), result), (1, Err(Error::Gpio)));
    p.flush();
    let (done, result) = perform(&mut p, Some(3));
    assert_eq!((done.len(), result), (4, Err(Error::Gpio)));
}

#[test]
fn first_failure_is_the_one_reported() {
    let mut p = panel();
    p.flush();
    for ok in [true, true, false, false] {
        assert!(matches!(p.step(), Step::Do(_)));
        p.report(ok);
    }
    assert_eq!(p.step(), Step::Done(Err(Error::Spi)));
}

#[test]
fn reset_failures_and_waits() {
    let mut p = panel();
    p.init();
    let (done, result) = perform(&mut p, Some(1));
    assert_eq!((done.len(), result), (2, Err(Error::Gpio)));
    p.init();
    let (_, result) = perform(&mut p, Some(2));
    assert_eq!(result, Ok(()));
}

#[test]
fn drawing_leaves_the_wires_alone() {
    let mut p = panel();
    p.draw_iter(&[(0, 299, BinaryColor::On), (-3, 0, BinaryColor::On)]);
    assert_eq!(p.step(), Step::Done(Ok(())));
    assert_eq!(p.frame.as_bytes()[0], 0x7F);
}
