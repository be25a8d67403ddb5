//! SHTC3 temperature and humidity, on the board's shared I2C bus.
//!
//! The bus carries other chips as well, so a corrupted read is a live
//! possibility rather than a theoretical one. Both CRC bytes are checked and a
//! mismatch discards the sample: putting a plausible but wrong temperature on a
//! screen whose whole job is being trustworthy at a glance is worse than showing
//! nothing there.
//!
//! A measurement is described step by step: [`Stage::op`] says what to do on the
//! bus, and [`read`] says what to do after the reply.

use vstd::prelude::*;

use crate::bus::{word_of, BusOp};

verus! {

use crate::bits::{all_bits, byte_bits};
use crate::bus::word_at;
use crate::frame::bit_set;

pub const ADDR: u8 = 0x70;

/// A single environment reading, as the sensor gives it.
#[derive(Clone, Copy, Debug, PartialEq, Eq, Structural)]
pub struct Room {
    /// Temperature, -45 to 130 degrees Celsius over the whole range.
    pub temp_raw: u16,
    /// Relative humidity, 0 to 100 percent over the whole range.
    pub hum_raw: u16,
}

/// The checksum register after one more bit: it shifts up, and where the bit
/// that leaves it differs from the bit that comes in, the polynomial
/// x^8 + x^5 + x^4 + 1 is added.
pub open spec fn crc_step(crc: u8, bit: bool) -> u8 {
    if bit_set(crc, 7) != bit {
        (crc << 1) ^ 0x31
    } else {
        crc << 1
    }
}

/// The checksum register after `bits`.
pub open spec fn crc_bits(crc: u8, bits: Seq<bool>) -> u8
    decreases bits.len(),
{
    if bits.len() == 0 {
        crc
    } else {
        crc_step(crc_bits(crc, bits.drop_last()), bits.last())
    }
}

/// Sensirion CRC-8: polynomial 0x31, init 0xFF, no reflection, no final xor.
pub open spec fn crc8_of(data: Seq<u8>) -> u8 {
    crc_bits(0xFF, all_bits(data))
}

/// The register after a zero bit.
spec fn crc_shift(crc: u8) -> u8 {
    if crc & 0x80 != 0 {
        (crc << 1) ^ 0x31
    } else {
        crc << 1
    }
}

/// Adding a byte to the register ahead of its bits gives the same as feeding the
/// bits in one by one.
proof fn lemma_shift_is_a_step(crc: u8, byte: u8, i: int)
    requires
        0 <= i < 8,
    ensures
        crc_shift(crc ^ (byte << (i as u8))) == crc_step(crc, byte_bits(byte)[i]) ^ (byte << ((i
            + 1) as u8)),
{
    let k = i as u8;
    let j = (i + 1) as u8;
    let b = (7 - i) as u8;
    assert(byte_bits(byte)[i] == ((byte >> b) & 1 == 1));
    assert({
        let x = crc ^ (byte << k);
        let shifted = if x & 0x80 != 0 {
            (x << 1) ^ 0x31
        } else {
            x << 1
        };
        let stepped = if ((crc >> 7u8) & 1 == 1) != ((byte >> b) & 1 == 1) {
            (crc << 1) ^ 0x31
        } else {
            crc << 1
        };
        shifted == stepped ^ (byte << j)
    }) by (bit_vector)
        requires
            k < 8,
            j == k + 1,
            b == 7 - k,
    ;
}

proof fn lemma_crc_concat(crc: u8, a: Seq<bool>, b: Seq<bool>)
    ensures
        crc_bits(crc, a + b) == crc_bits(crc_bits(crc, a), b),
    decreases b.len(),
{
    if b.len() == 0 {
        assert(a + b =~= a);
    } else {
        assert((a + b).drop_last() =~= a + b.drop_last());
        lemma_crc_concat(crc, a, b.drop_last());
    }
}

/// Sensirion CRC-8: polynomial 0x31, init 0xFF, no reflection, no final xor.
pub fn crc8(data: &[u8]) -> (crc: u8)
    ensures
        crc == crc8_of(data@),
{
    let mut crc: u8 = 0xFF;
    let mut n: usize = 0;
    assert(data@.take(0) =~= Seq::<u8>::empty());
    while n < data.len()
        invariant
            n <= data@.len(),
            crc == crc8_of(data@.take(n as int)),
        decreases data@.len() - n,
    {
        let byte: u8 = data[n];
        let ghost start = crc;
        crc = crc ^ byte;
        let mut i: u8 = 0;
        proof {
            assert(byte << 0u8 == byte) by (bit_vector);
            assert(byte_bits(byte).take(0) =~= Seq::<bool>::empty());
        }
        while i < 8
            invariant
                i <= 8,
                crc == crc_bits(start, byte_bits(byte).take(i as int)) ^ (byte << i),
            decreases 8 - i,
        {
            proof {
                let so_far = byte_bits(byte).take(i as int);
                lemma_shift_is_a_step(crc_bits(start, so_far), byte, i as int);
                assert(byte_bits(byte).take(i + 1).drop_last() =~= so_far);
            }
            crc = if crc & 0x80 != 0 {
                (crc << 1) ^ 0x31
            } else {
                crc << 1
            };
            i += 1;
        }
        proof {
            let all = byte_bits(byte);
            assert(all.take(8) =~= all);
            let end = crc_bits(start, all);
            assert(end ^ (byte << 8u8) == end) by (bit_vector);
            let before = data@.take(n as int);
            assert(data@.take(n + 1).drop_last() =~= before);
            lemma_crc_concat(0xFF, all_bits(before), all);
        }
        n += 1;
    }
    assert(data@.take(n as int) =~= data@);
    crc
}

/// The register after `n` zero bits.
spec fn crc_shifts(crc: u8, n: nat) -> u8
    decreases n,
{
    if n == 0 {
        crc
    } else {
        crc_shift(crc_shifts(crc, (n - 1) as nat))
    }
}

/// A byte in the register is the byte added to it, then shifted through.
proof fn lemma_byte_is_shifted_through(crc: u8, byte: u8, i: int)
    requires
        0 <= i <= 8,
    ensures
        crc_shifts(crc ^ byte, i as nat) == crc_bits(crc, byte_bits(byte).take(i)) ^ (byte << (
        i as u8)),
        i == 8 ==> crc_shifts(crc ^ byte, 8) == crc_bits(crc, byte_bits(byte)),
    decreases i,
{
    if i == 0 {
        assert(byte << 0u8 == byte) by (bit_vector);
        assert(byte_bits(byte).take(0) =~= Seq::<bool>::empty());
    } else {
        let so_far = byte_bits(byte).take(i - 1);
        lemma_byte_is_shifted_through(crc, byte, i - 1);
        lemma_shift_is_a_step(crc_bits(crc, so_far), byte, i - 1);
        assert(byte_bits(byte).take(i).drop_last() =~= so_far);
        if i == 8 {
            assert(byte_bits(byte).take(8) =~= byte_bits(byte));
            let end = crc_bits(crc, byte_bits(byte));
            assert(end ^ (byte << 8u8) == end) by (bit_vector);
        }
    }
}

/// Shifting keeps differences.
proof fn lemma_shifts_are_linear(a: u8, b: u8, n: nat)
    ensures
        crc_shifts(a ^ b, n) == crc_shifts(a, n) ^ crc_shifts(b, n),
    decreases n,
{
    if n > 0 {
        let less = (n - 1) as nat;
        lemma_shifts_are_linear(a, b, less);
        let x = crc_shifts(a, less);
        let y = crc_shifts(b, less);
        assert({
            let z = x ^ y;
            let sx = if x & 0x80 != 0 {
                (x << 1) ^ 0x31
            } else {
                x << 1
            };
            let sy = if y & 0x80 != 0 {
                (y << 1) ^ 0x31
            } else {
                y << 1
            };
            let sz = if z & 0x80 != 0 {
                (z << 1) ^ 0x31
            } else {
                z << 1
            };
            sz == sx ^ sy
        }) by (bit_vector);
    }
}

/// Shifting never loses a register that is not zero.
proof fn lemma_shifts_keep_nonzero(crc: u8, n: nat)
    ensures
        crc_shifts(crc, n) == 0 <==> crc == 0,
    decreases n,
{
    if n > 0 {
        lemma_shifts_keep_nonzero(crc, (n - 1) as nat);
        let x = crc_shifts(crc, (n - 1) as nat);
        assert((if x & 0x80 != 0 {
            (x << 1) ^ 0x31
        } else {
            x << 1
        }) == 0 <==> x == 0) by (bit_vector);
    }
}

/// Data followed by its own checksum leaves the register at zero, and data
/// followed by anything else does not.
pub proof fn law_checksum_cancels_itself(data: Seq<u8>, checksum: u8)
    ensures
        crc8_of(data.push(checksum)) == 0 <==> checksum == crc8_of(data),
{
    let crc = crc8_of(data);
    assert(data.push(checksum).drop_last() =~= data);
    lemma_crc_concat(0xFF, all_bits(data), byte_bits(checksum));
    lemma_byte_is_shifted_through(crc, checksum, 8);
    lemma_shifts_keep_nonzero(crc ^ checksum, 8);
    assert(crc ^ checksum == 0 <==> crc == checksum) by (bit_vector);
}

/// Feeding the same bits keeps two different registers different.
proof fn lemma_registers_stay_apart(a: u8, b: u8, bits: Seq<bool>)
    requires
        a != b,
    ensures
        crc_bits(a, bits) != crc_bits(b, bits),
    decreases bits.len(),
{
    if bits.len() > 0 {
        lemma_registers_stay_apart(a, b, bits.drop_last());
        let x = crc_bits(a, bits.drop_last());
        let y = crc_bits(b, bits.drop_last());
        let bit = bits.last();
        assert(x != y ==> (if ((x >> 7u8) & 1 == 1) != bit {
            (x << 1) ^ 0x31
        } else {
            x << 1
        }) != (if ((y >> 7u8) & 1 == 1) != bit {
            (y << 1) ^ 0x31
        } else {
            y << 1
        })) by (bit_vector);
    }
}

/// Different bytes take a register to different places.
proof fn lemma_bytes_part_registers(crc: u8, a: u8, b: u8)
    requires
        a != b,
    ensures
        crc_bits(crc, byte_bits(a)) != crc_bits(crc, byte_bits(b)),
{
    let x = crc ^ a;
    let y = crc ^ b;
    lemma_byte_is_shifted_through(crc, a, 8);
    lemma_byte_is_shifted_through(crc, b, 8);
    lemma_shifts_are_linear(x, y, 8);
    lemma_shifts_keep_nonzero(x ^ y, 8);
    assert(a != b ==> (crc ^ a) ^ (crc ^ b) != 0) by (bit_vector);
    let p = crc_shifts(x, 8);
    let q = crc_shifts(y, 8);
    assert(p ^ q != 0 ==> p != q) by (bit_vector);
}

/// Data that differ in one byte have different checksums.
proof fn lemma_one_byte_changes_the_checksum(data: Seq<u8>, i: int, byte: u8)
    requires
        0 <= i < data.len(),
        byte != data[i],
    ensures
        crc8_of(data.update(i, byte)) != crc8_of(data),
    decreases data.len(),
{
    let changed = data.update(i, byte);
    let last = data.len() - 1;
    lemma_crc_concat(0xFF, all_bits(data.drop_last()), byte_bits(data.last()));
    lemma_crc_concat(0xFF, all_bits(changed.drop_last()), byte_bits(changed.last()));
    if i == last {
        assert(changed.drop_last() =~= data.drop_last());
        lemma_bytes_part_registers(crc8_of(data.drop_last()), data.last(), byte);
    } else {
        assert(changed.drop_last() =~= data.drop_last().update(i, byte));
        lemma_one_byte_changes_the_checksum(data.drop_last(), i, byte);
        lemma_registers_stay_apart(
            crc8_of(changed.drop_last()),
            crc8_of(data.drop_last()),
            byte_bits(data.last()),
        );
    }
}

/// No corruption that is confined to one byte goes unnoticed, for data of any length
/// and also where it hits the checksum itself: of data with its checksum behind it,
/// change any one byte, and the checksum does not fit any more.
pub proof fn law_one_corrupted_byte_is_noticed(data: Seq<u8>, i: int, byte: u8)
    requires
        0 <= i <= data.len(),
        byte != data.push(crc8_of(data))[i],
    ensures
        ({
            let got = data.push(crc8_of(data)).update(i, byte);
            crc8_of(got.drop_last()) != got.last()
        }),
        i < data.len() ==> crc8_of(data.update(i, byte)) != crc8_of(data),
{
    let got = data.push(crc8_of(data)).update(i, byte);
    if i < data.len() {
        assert(got.drop_last() =~= data.update(i, byte));
        lemma_one_byte_changes_the_checksum(data, i, byte);
    } else {
        assert(got.drop_last() =~= data);
    }
}

/// How many bits of a byte are set.
pub open spec fn weight(b: u8) -> int {
    (b & 1) + ((b >> 1u8) & 1) + ((b >> 2u8) & 1) + ((b >> 3u8) & 1) + ((b >> 4u8) & 1) + ((b
        >> 5u8) & 1) + ((b >> 6u8) & 1) + ((b >> 7u8) & 1)
}

/// In how many bits two words with their checksums differ.
pub open spec fn distance(a: [u8; 3], b: [u8; 3]) -> int {
    weight(a[0] ^ b[0]) + weight(a[1] ^ b[1]) + weight(a[2] ^ b[2])
}

/// Whether a word carries the right checksum.
pub open spec fn intact(word: [u8; 3]) -> bool {
    crc8_of(seq![word[0], word[1]]) == word[2]
}

/// The checksum of a word, by shifts.
proof fn lemma_word_crc(a: u8, b: u8)
    ensures
        crc8_of(seq![a, b]) == crc_shifts(crc_shifts(0xFF ^ a, 8) ^ b, 8),
{
    let data = seq![a, b];
    let one = seq![a];
    let none = Seq::<u8>::empty();
    assert(data.drop_last() =~= one);
    assert(one.drop_last() =~= none);
    assert(all_bits(none) =~= Seq::<bool>::empty());
    assert(all_bits(one) =~= byte_bits(a));
    lemma_crc_concat(0xFF, byte_bits(a), byte_bits(b));
    lemma_byte_is_shifted_through(0xFF, a, 8);
    lemma_byte_is_shifted_through(crc_bits(0xFF, byte_bits(a)), b, 8);
}

/// Any pattern of flipped bits that the checksum does not notice flips four bits
/// or more.
proof fn lemma_unnoticed_pattern(e0: u8, e1: u8, e2: u8)
    requires
        crc_shifts(crc_shifts(e0, 8) ^ e1, 8) == e2,
        e0 != 0 || e1 != 0 || e2 != 0,
    ensures
        weight(e0) + weight(e1) + weight(e2) >= 4,
{
    reveal_with_fuel(crc_shifts, 9);
    let x1 = crc_shift(e0);
    let x2 = crc_shift(x1);
    let x3 = crc_shift(x2);
    let x4 = crc_shift(x3);
    let x5 = crc_shift(x4);
    let x6 = crc_shift(x5);
    let x7 = crc_shift(x6);
    let x8 = crc_shift(x7);
    let y0 = x8 ^ e1;
    let y1 = crc_shift(y0);
    let y2 = crc_shift(y1);
    let y3 = crc_shift(y2);
    let y4 = crc_shift(y3);
    let y5 = crc_shift(y4);
    let y6 = crc_shift(y5);
    let y7 = crc_shift(y6);
    assert(x8 == crc_shifts(e0, 8));
    assert(e2 == crc_shift(y7));
    assert(weight(e0) + weight(e1) + weight(e2) >= 4) by (bit_vector)
        requires
            e0 != 0 || e1 != 0 || e2 != 0,
            x1 == crc_shift(e0),
            x2 == crc_shift(x1),
            x3 == crc_shift(x2),
            x4 == crc_shift(x3),
            x5 == crc_shift(x4),
            x6 == crc_shift(x5),
            x7 == crc_shift(x6),
            x8 == crc_shift(x7),
            y0 == x8 ^ e1,
            y1 == crc_shift(y0),
            y2 == crc_shift(y1),
            y3 == crc_shift(y2),
            y4 == crc_shift(y3),
            y5 == crc_shift(y4),
            y6 == crc_shift(y5),
            y7 == crc_shift(y6),
            e2 == crc_shift(y7),
    ;
}

/// A word that was corrupted in up to three bits, checksum included, is never
/// taken for an intact one.
pub proof fn law_up_to_three_flipped_bits_are_noticed(sent: [u8; 3], got: [u8; 3])
    requires
        intact(sent),
        0 < distance(sent, got) <= 3,
    ensures
        !intact(got),
{
    let (a0, a1, a2) = (sent[0], sent[1], sent[2]);
    let (b0, b1, b2) = (got[0], got[1], got[2]);
    let (e0, e1, e2) = (a0 ^ b0, a1 ^ b1, a2 ^ b2);
    if intact(got) {
        lemma_word_crc(a0, a1);
        lemma_word_crc(b0, b1);
        let p = crc_shifts(0xFF ^ a0, 8);
        let q = crc_shifts(0xFF ^ b0, 8);
        lemma_shifts_are_linear(0xFF ^ a0, 0xFF ^ b0, 8);
        lemma_shifts_are_linear(p ^ a1, q ^ b1, 8);
        assert((0xFFu8 ^ a0) ^ (0xFFu8 ^ b0) == a0 ^ b0) by (bit_vector);
        assert((p ^ a1) ^ (q ^ b1) == (p ^ q) ^ (a1 ^ b1)) by (bit_vector);
        if e0 == 0 && e1 == 0 && e2 == 0 {
            assert(weight(0) == 0) by (bit_vector);
        } else {
            lemma_unnoticed_pattern(e0, e1, e2);
        }
    }
}

/// The reading in six bytes: temperature and humidity, a word and its checksum
/// each. A wrong checksum discards both.
pub open spec fn reading(raw: Seq<u8>) -> Option<Room> {
    if crc8_of(raw.subrange(0, 2)) == raw[2] && crc8_of(raw.subrange(3, 5)) == raw[5] {
        Some(Room { temp_raw: word_at(raw, 0), hum_raw: word_at(raw, 3) })
    } else {
        None
    }
}

/// The reading in six bytes from the sensor.
pub fn decode(raw: &[u8; 6]) -> (room: Option<Room>)
    ensures
        room == reading(raw@),
        room matches Some(room) ==> room.temp_raw == 256 * raw[0] + raw[1] && room.hum_raw == 256
            * raw[3] + raw[4],
{
    let temp = [raw[0], raw[1]];
    let hum = [raw[3], raw[4]];
    assert(temp@ =~= raw@.subrange(0, 2));
    assert(hum@ =~= raw@.subrange(3, 5));
    if crc8(&temp) != raw[2] || crc8(&hum) != raw[5] {
        return None;
    }
    Some(Room { temp_raw: word_of(raw[0], raw[1]), hum_raw: word_of(raw[3], raw[4]) })
}

/// What part of a measurement is under way.
#[derive(Clone, Copy, Debug, PartialEq, Eq)]
pub enum Stage {
    Wake,
    WakePause,
    /// Temperature first, clock stretching disabled.
    Measure,
    MeasurePause,
    Fetch,
    /// Back to sleep, with the bytes that were fetched.
    Sleep(Option<[u8; 6]>),
}

/// How a request to the bus ended.
#[derive(Clone, Copy, Debug, PartialEq, Eq)]
pub enum Reply {
    Done,
    Failed,
    /// What was read.
    Data([u8; 6]),
}

/// What to do after a request.
#[derive(Clone, Copy, Debug, PartialEq, Eq)]
pub enum Next {
    Go(Stage),
    /// The measurement is over.
    Finished(Option<Room>),
}

/// What a stage does on the bus.
pub open spec fn op_of(stage: Stage) -> BusOp {
    match stage {
        Stage::Wake => BusOp::Write { addr: 0x70, word: [0x35, 0x17] },
        Stage::WakePause => BusOp::DelayMs(1),
        Stage::Measure => BusOp::Write { addr: 0x70, word: [0x78, 0x66] },
        Stage::MeasurePause => BusOp::DelayMs(15),
        Stage::Fetch => BusOp::Read { addr: 0x70, len: 6 },
        Stage::Sleep(_) => BusOp::Write { addr: 0x70, word: [0xB0, 0x98] },
    }
}

/// What happens after a stage's request ended with `reply`.
pub open spec fn after_reply(stage: Stage, reply: Reply) -> Next {
    match stage {
        Stage::Wake => if reply is Failed {
            Next::Finished(None)
        } else {
            Next::Go(Stage::WakePause)
        },
        Stage::WakePause => Next::Go(Stage::Measure),
        Stage::Measure => if reply is Failed {
            Next::Finished(None)
        } else {
            Next::Go(Stage::MeasurePause)
        },
        Stage::MeasurePause => Next::Go(Stage::Fetch),
        Stage::Fetch => Next::Go(
            Stage::Sleep(
                match reply {
                    Reply::Data(raw) => Some(raw),
                    _ => None,
                },
            ),
        ),
        Stage::Sleep(fetched) => Next::Finished(
            match fetched {
                Some(raw) => reading(raw@),
                None => None,
            },
        ),
    }
}

impl Stage {
    /// What this stage does on the bus.
    pub fn op(&self) -> (op: BusOp)
        ensures
            op == op_of(*self),
    {
        match self {
            Stage::Wake => BusOp::Write { addr: ADDR, word: [0x35, 0x17] },
            Stage::WakePause => BusOp::DelayMs(1),
            Stage::Measure => BusOp::Write { addr: ADDR, word: [0x78, 0x66] },
            Stage::MeasurePause => BusOp::DelayMs(15),
            Stage::Fetch => BusOp::Read { addr: ADDR, len: 6 },
            Stage::Sleep(_) => BusOp::Write { addr: ADDR, word: [0xB0, 0x98] },
        }
    }
}

/// One-shot temperature and humidity read: what to do after a stage. The sensor
/// sleeps between reads, so a measurement starts in [`Stage::Wake`] and ends in
/// [`Stage::Sleep`]. It finishes with `None` for a missing sensor, a failed
/// transfer or a checksum mismatch.
pub fn read(stage: Stage, reply: Reply) -> (next: Next)
    ensures
        next == after_reply(stage, reply),
{
    let failed = matches!(reply, Reply::Failed);
    match stage {
        Stage::Wake => {
            if failed {
                Next::Finished(None)
            } else {
                Next::Go(Stage::WakePause)
            }
        },
        Stage::WakePause => Next::Go(Stage::Measure),
        Stage::Measure => {
            if failed {
                Next::Finished(None)
            } else {
                Next::Go(Stage::MeasurePause)
            }
        },
        Stage::MeasurePause => Next::Go(Stage::Fetch),
        Stage::Fetch => Next::Go(
            Stage::Sleep(
                match reply {
                    Reply::Data(raw) => Some(raw),
                    _ => None,
                },
            ),
        ),
        Stage::Sleep(fetched) => Next::Finished(
            match fetched {
                Some(raw) => decode(&raw),
                None => None,
            },
        ),
    }
}

/// Where a measurement stands after its requests ended with `replies`, and what
/// it asked of the bus on the way.
pub open spec fn read_through(replies: Seq<Reply>) -> (Next, Seq<BusOp>)
    decreases replies.len(),
{
    if replies.len() == 0 {
        (Next::Go(Stage::Wake), Seq::empty())
    } else {
        let (next, ops) = read_through(replies.drop_last());
        match next {
            Next::Go(stage) => (after_reply(stage, replies.last()), ops.push(op_of(stage))),
            Next::Finished(_) => (next, ops),
        }
    }
}

/// The requests of a measurement that gets as far as reading.
pub open spec fn full_cycle() -> Seq<BusOp> {
    seq![
        BusOp::Write { addr: 0x70, word: [0x35, 0x17] },
        BusOp::DelayMs(1),
        BusOp::Write { addr: 0x70, word: [0x78, 0x66] },
        BusOp::DelayMs(15),
        BusOp::Read { addr: 0x70, len: 6 },
        BusOp::Write { addr: 0x70, word: [0xB0, 0x98] },
    ]
}

/// Unfolds the six stages of a measurement.
proof fn lemma_six_stages(replies: Seq<Reply>)
    requires
        replies.len() == 6,
    ensures
        ({
            let woken = !(replies[0] is Failed);
            let measured = woken && !(replies[2] is Failed);
            let fetched = match replies[4] {
                Reply::Data(raw) => reading(raw@),
                _ => None,
            };
            &&& read_through(replies).0 == Next::Finished(
                if measured {
                    fetched
                } else {
                    None
                },
            )
            &&& measured ==> read_through(replies).1 == full_cycle()
            &&& woken && !measured ==> read_through(replies).1 == full_cycle().take(3)
            &&& !woken ==> read_through(replies).1 == full_cycle().take(1)
        }),
{
    let r5 = replies.drop_last();
    let r4 = r5.drop_last();
    let r3 = r4.drop_last();
    let r2 = r3.drop_last();
    let r1 = r2.drop_last();
    let r0 = r1.drop_last();
    assert(read_through(r0) == (Next::Go(Stage::Wake), Seq::<BusOp>::empty()));
    assert(read_through(r1).0 == after_reply(Stage::Wake, replies[0]));
    if replies[0] is Failed {
        assert(read_through(r1).1 =~= full_cycle().take(1));
        assert(read_through(r2) == read_through(r1));
        assert(read_through(r3) == read_through(r1));
        assert(read_through(r4) == read_through(r1));
        assert(read_through(r5) == read_through(r1));
    } else {
        assert(read_through(r2).0 == Next::Go(Stage::Measure));
        assert(read_through(r3).0 == after_reply(Stage::Measure, replies[2]));
        assert(read_through(r3).1 =~= full_cycle().take(3));
        if replies[2] is Failed {
            assert(read_through(r4) == read_through(r3));
            assert(read_through(r5) == read_through(r3));
        } else {
            assert(read_through(r4).0 == Next::Go(Stage::Fetch));
            assert(read_through(r5).0 == after_reply(Stage::Fetch, replies[4]));
            assert(read_through(replies).1 =~= full_cycle());
        }
    }
}

/// A measurement takes at most six requests. It gives a reading exactly when the
/// sensor took both commands, the read went through and both checksums were
/// right; whether it went back to sleep makes no difference.
pub proof fn law_reading_is_checked(replies: Seq<Reply>)
    requires
        replies.len() == 6,
    ensures
        read_through(replies).0 is Finished,
        read_through(replies).0->Finished_0 is Some <==> !(replies[0] is Failed) && !(
        replies[2] is Failed) && (replies[4] matches Reply::Data(raw) && reading(raw@) is Some),
        read_through(replies).0->Finished_0 is Some ==> read_through(replies).0->Finished_0
            == reading(replies[4]->Data_0@),
{
    lemma_six_stages(replies);
}

/// Once a measurement has been started the sensor is always sent back to sleep,
/// whether the read went through or not.
pub proof fn law_sleep_follows_every_measurement(replies: Seq<Reply>)
    requires
        replies.len() == 6,
        !(replies[0] is Failed),
        !(replies[2] is Failed),
    ensures
        read_through(replies).1 == full_cycle(),
        full_cycle().last() == (BusOp::Write { addr: 0x70, word: [0xB0, 0x98] }),
{
    lemma_six_stages(replies);
}

/// A reading is there exactly when both checksums fit, and it is the two words in
/// front of them, first byte first: the temperature, then the humidity.
pub proof fn law_reading_is_in_the_bytes(raw: Seq<u8>)
    requires
        raw.len() == 6,
    ensures
        reading(raw) is Some <==> crc8_of(seq![raw[0], raw[1]]) == raw[2] && crc8_of(
            seq![raw[3], raw[4]],
        ) == raw[5],
        reading(raw) matches Some(room) ==> room.temp_raw == 256 * raw[0] + raw[1]
            && room.hum_raw == 256 * raw[3] + raw[4],
{
    assert(raw.subrange(0, 2) =~= seq![raw[0], raw[1]]);
    assert(raw.subrange(3, 5) =~= seq![raw[3], raw[4]]);
}

/// Two readings that passed their checksums and agree were the same bytes, so no
/// temperature and no humidity stands for two different ones.
pub proof fn law_readings_are_told_apart(a: Seq<u8>, b: Seq<u8>)
    requires
        a.len() == 6,
        b.len() == 6,
        reading(a) is Some,
        reading(a) == reading(b),
    ensures
        a == b,
{
    law_reading_is_in_the_bytes(a);
    law_reading_is_in_the_bytes(b);
    assert(a =~= b);
}

/// The checksum starts with all bits set. Each bit of the data doubles it, the bit
/// that overflows being dropped, and adds the polynomial's 0x31 when that bit and
/// the bit of the data differ.
pub proof fn law_checksum_register(crc: u8, data: Seq<u8>, byte: u8, bits: Seq<bool>, bit: bool)
    ensures
        crc8_of(Seq::empty()) == 0xFF,
        crc8_of(data.push(byte)) == crc_bits(crc8_of(data), byte_bits(byte)),
        crc_bits(crc, Seq::empty()) == crc,
        crc_bits(crc, bits.push(bit)) == crc_step(crc_bits(crc, bits), bit),
        crc_step(crc, crc >= 128) == (2 * crc) % 256,
        crc_step(crc, crc < 128) == ((2 * crc) % 256) as u8 ^ 0x31,
{
    assert(all_bits(Seq::<u8>::empty()) =~= Seq::<bool>::empty());
    assert(data.push(byte).drop_last() =~= data);
    lemma_crc_concat(0xFF, all_bits(data), byte_bits(byte));
    assert(bits.push(bit).drop_last() =~= bits);
    assert(((crc >> 7u8) & 1 == 1) == (crc >= 128)) by (bit_vector);
    assert(crc << 1 == (2 * crc) % 256) by (bit_vector);
}

/// What a measurement asks of the bus, request by request: wake up, a millisecond,
/// measure, fifteen milliseconds, read six bytes, sleep.
pub proof fn law_measurement_on_the_bus(replies: Seq<Reply>)
    requires
        replies.len() == 6,
    ensures
        ({
            let ops = read_through(replies).1;
            let woken = !(replies[0] is Failed);
            let measured = woken && !(replies[2] is Failed);
            &&& ops.len() == (if measured {
                6nat
            } else if woken {
                3nat
            } else {
                1nat
            })
            &&& ops[0] == (BusOp::Write { addr: 0x70, word: [0x35, 0x17] })
            &&& woken ==> ops[1] == BusOp::DelayMs(1)
            &&& woken ==> ops[2] == (BusOp::Write { addr: 0x70, word: [0x78, 0x66] })
            &&& measured ==> ops[3] == BusOp::DelayMs(15)
            &&& measured ==> ops[4] == (BusOp::Read { addr: 0x70, len: 6 })
            &&& measured ==> ops[5] == (BusOp::Write { addr: 0x70, word: [0xB0, 0x98] })
        }),
{
    lemma_six_stages(replies);
}

/// A measurement gives the words of the reply to its read, and nothing else: its
/// temperature and humidity are the bytes that came, whatever the other replies were.
pub proof fn law_measurement_gives_what_was_read(replies: Seq<Reply>, room: Room)
    requires
        replies.len() == 6,
        read_through(replies).0 == Next::Finished(Some(room)),
    ensures
        replies[4] is Data,
        room.temp_raw == 256 * replies[4]->Data_0[0] + replies[4]->Data_0[1],
        room.hum_raw == 256 * replies[4]->Data_0[3] + replies[4]->Data_0[4],
{
    lemma_six_stages(replies);
    law_reading_is_in_the_bytes(replies[4]->Data_0@);
}

} // verus!
