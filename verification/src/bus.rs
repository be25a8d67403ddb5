//! What a sensor driver asks of its I2C bus, one request at a time.

use vstd::prelude::*;

verus! {

/// One request.
#[derive(Clone, Copy, Debug, PartialEq, Eq)]
pub enum BusOp {
    /// Send a command word.
    Write { addr: u8, word: [u8; 2] },
    /// Read this many bytes.
    Read { addr: u8, len: usize },
    /// Wait.
    DelayMs(u32),
}

/// The big-endian word at `at`.
pub open spec fn word_at(data: Seq<u8>, at: int) -> u16 {
    (data[at] as u16 * 256 + data[at + 1] as u16) as u16
}

/// The big-endian word made of two bytes.
pub fn word_of(high: u8, low: u8) -> (word: u16)
    ensures
        word == high as int * 256 + low as int,
{
    high as u16 * 256 + low as u16
}

/// A word is its first byte times 256 and its second byte.
pub proof fn law_words_are_big_endian(data: Seq<u8>, at: int)
    ensures
        word_at(data, at) == 256 * data[at] + data[at + 1],
{
}

} // verus!
