use homelab::bus::{word_of, BusOp};
use homelab::scd41;
use homelab::scd41::{Fault, PollNext, PollStage, Sample, StartNext, StartStage};
use homelab::shtc3;
use homelab::shtc3::{crc8, decode, Next, Reply, Room, Stage};

#[test]
fn words_are_big_endian() {
    assert_eq!(word_of(0x12, 0x34), 0x1234);
    assert_eq!(word_of(0xFF, 0xFF), 0xFFFF);
}

#[test]
fn crc_of_known_words() {
    assert_eq!(crc8(&[]), 0xFF);
    assert_eq!(crc8(&[0xBE, 0xEF]), 0x92);
    assert_eq!(crc8(&[0x00, 0x00]), 0x81);
}

#[test]
fn checksum_cancels_itself() {
    for word in [[0x12u8, 0x34u8], [0xBE, 0xEF], [0x00, 0xFF]] {
        let crc = crc8(&word);
        assert_eq!(crc8(&[word[0], word[1], crc]), 0);
        assert_ne!(crc8(&[word[0], word[1], crc ^ 1]), 0);
    }
}

#[test]
fn flipped_bits_are_noticed() {
    let good = [0xBEu8, 0xEF, 0x92];
    for a in 0..24usize {
        for b in 0..24usize {
            let mut bad = good;
            bad[a / 8] ^= 1 << (a % 8);
            if a != b {
                bad[b / 8] ^= 1 << (b % 8);
            }
            assert_ne!(crc8(&bad[..2]), bad[2]);
        }
    }
}

#[test]
fn one_corrupted_byte_is_noticed() {
    let data = [0x12u8, 0x34, 0x56, 0x78, 0x9A];
    let crc = crc8(&data);
    for i in 0..data.len() {
        for byte in 0..=255u8 {
            let mut got = data;
            got[i] = byte;
            assert_eq!(crc8(&got) == crc, byte == data[i]);
        }
    }
}

#[test]
fn reading_needs_both_checksums() {
    let raw = [0xBE, 0xEF, 0x92, 0x00, 0x00, 0x81];
    assert_eq!(decode(&raw), Some(Room { temp_raw: 0xBEEF, hum_raw: 0 }));
    assert_eq!(decode(&[0xBE, 0xEF, 0x93, 0x00, 0x00, 0x81]), None);
    assert_eq!(decode(&[0xBE, 0xEF, 0x92, 0x00, 0x01, 0x81]), None);
}

fn measure(replies: [Reply; 6]) -> (Vec<BusOp>, Option<Room>) {
    let mut stage = Stage::Wake;
    let mut ops = Vec::new();
    for reply in replies {
        ops.push(stage.op());
        match shtc3::read(stage, reply) {
            Next::Go(next) => stage = next,
            Next::Finished(room) => return (ops, room),
        }
    }
    panic!("not finished");
}

fn cycle() -> Vec<BusOp> {
    vec![
        BusOp::Write { addr: 0x70, word: [0x35, 0x17] },
        BusOp::DelayMs(1),
        BusOp::Write { addr: 0x70, word: [0x78, 0x66] },
        BusOp::DelayMs(15),
        BusOp::Read { addr: 0x70, len: 6 },
        BusOp::Write { addr: 0x70, word: [0xB0, 0x98] },
    ]
}

const RAW: [u8; 6] = [0xBE, 0xEF, 0x92, 0x00, 0x00, 0x81];

#[test]
fn measurement_wakes_measures_and_sleeps() {
    let ok = Reply::Done;
    let (ops, room) = measure([ok, ok, ok, ok, Reply::Data(RAW), ok]);
    assert_eq!(ops, cycle());
    assert_eq!(room, Some(Room { temp_raw: 0xBEEF, hum_raw: 0 }));
}

#[test]
fn sensor_sleeps_after_a_failed_read() {
    let ok = Reply::Done;
    let (ops, room) = measure([ok, ok, ok, ok, Reply::Failed, ok]);
    assert_eq!(ops, cycle());
    assert_eq!(room, None);
}

#[test]
fn failed_sleep_does_not_spoil_a_reading() {
    let ok = Reply::Done;
    let (_, room) = measure([ok, ok, ok, ok, Reply::Data(RAW), Reply::Failed]);
    assert!(room.is_some());
}

#[test]
fn missing_sensor_is_left_alone() {
    let ok = Reply::Done;
    let (ops, room) = measure([Reply::Failed, ok, ok, ok, ok, ok]);
    assert_eq!((ops, room), (cycle()[..1].to_vec(), None));
    let (ops, room) = measure([ok, ok, Reply::Failed, ok, ok, ok]);
    assert_eq!((ops, room), (cycle()[..3].to_vec(), None));
}

#[test]
fn corrupted_reading_is_discarded() {
    let ok = Reply::Done;
    let mut raw = RAW;
    raw[0] ^= 0x10;
    let (_, room) = measure([ok, ok, ok, ok, Reply::Data(raw), ok]);
    assert_eq!(room, None);
}

fn poll(replies: [scd41::Reply; 6]) -> (Vec<BusOp>, Sample) {
    let mut stage = PollStage::AskReady;
    let mut ops = Vec::new();
    for reply in replies {
        ops.push(stage.op());
        match scd41::poll_scd41(stage, reply) {
            PollNext::Go(next) => stage = next,
            PollNext::Finished(sample) => return (ops, sample),
        }
    }
    panic!("not finished");
}

#[test]
fn poll_brings_a_sample() {
    let ok = scd41::Reply::Done;
    let ready = scd41::Reply::Ready([0x80, 0x06, 0x00]);
    let data = scd41::Reply::Sample([0x01, 0xF4, 0, 0x66, 0x67, 0, 0x5E, 0xB9, 0]);
    let (ops, sample) = poll([ok, ok, ready, ok, ok, data]);
    assert_eq!(
        ops,
        [
            BusOp::Write { addr: 0x62, word: [0xE4, 0xB8] },
            BusOp::DelayMs(2),
            BusOp::Read { addr: 0x62, len: 3 },
            BusOp::Write { addr: 0x62, word: [0xEC, 0x05] },
            BusOp::DelayMs(2),
            BusOp::Read { addr: 0x62, len: 9 },
        ]
    );
    assert_eq!(sample, Sample::Measured { co2: 500, temp_raw: 0x6667, hum_raw: 0x5EB9 });
}

#[test]
fn only_the_low_bits_announce_a_sample() {
    let ok = scd41::Reply::Done;
    for word in [[0x00u8, 0x00u8], [0x80, 0x00], [0xF8, 0x00]] {
        let ready = scd41::Reply::Ready([word[0], word[1], 0xAA]);
        let (ops, sample) = poll([ok, ok, ready, ok, ok, ok]);
        assert_eq!((ops.len(), sample), (3, Sample::NotReady));
    }
    let ready = scd41::Reply::Ready([0x04, 0x00, 0]);
    let (_, sample) = poll([ok, ok, ready, ok, ok, scd41::Reply::Sample([0; 9])]);
    assert_eq!(sample, Sample::Measured { co2: 0, temp_raw: 0, hum_raw: 0 });
}

#[test]
fn poll_faults_name_their_stage() {
    let ok = scd41::Reply::Done;
    let bad = scd41::Reply::Failed;
    let ready = scd41::Reply::Ready([0, 1, 0]);
    assert_eq!(poll([bad, ok, ready, ok, ok, ok]).1, Sample::Error(Fault::DrWrite));
    assert_eq!(poll([ok, ok, bad, ok, ok, ok]).1, Sample::Error(Fault::DrRead));
    assert_eq!(poll([ok, ok, ready, bad, ok, ok]).1, Sample::Error(Fault::RmWrite));
    assert_eq!(poll([ok, ok, ready, ok, ok, bad]).1, Sample::Error(Fault::RmRead));
    assert_eq!(Fault::DrWrite.stage(), "DR write");
    assert_eq!(Fault::DrRead.stage(), "DR read");
    assert_eq!(Fault::RmWrite.stage(), "RM write");
    assert_eq!(Fault::RmRead.stage(), "RM read");
    assert_eq!(Fault::NoSensor.stage(), "no sensor");
}

fn start(oks: [bool; 5]) -> (Vec<BusOp>, bool) {
    let mut stage = StartStage::WakeUp;
    let mut ops = Vec::new();
    for ok in oks {
        ops.push(stage.op());
        match scd41::start_periodic(stage, ok) {
            StartNext::Go(next) => stage = next,
            StartNext::Finished(started) => return (ops, started),
        }
    }
    panic!("not finished");
}

#[test]
fn start_ignores_all_but_the_last_reply() {
    let expected = vec![
        BusOp::Write { addr: 0x62, word: [0x36, 0xF6] },
        BusOp::DelayMs(30),
        BusOp::Write { addr: 0x62, word: [0x3F, 0x86] },
        BusOp::DelayMs(500),
        BusOp::Write { addr: 0x62, word: [0x21, 0xB1] },
    ];
    assert_eq!(start([true; 5]), (expected.clone(), true));
    assert_eq!(start([false, true, false, true, true]), (expected.clone(), true));
    assert_eq!(start([true, true, true, true, false]), (expected, false));
}
