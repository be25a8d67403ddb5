//! Bit-banged SPI transport for the panel.
//!
//! The transport is described as the edges it drives on its two pins, one at a
//! time: the caller asks for the next edge, drives it, and asks again. No
//! waveform is ever stored, so a whole frame costs no memory.

use vstd::prelude::*;

verus! {

use crate::bits::{all_bits, byte_bits, law_bits_decide_the_bytes, law_bits_travel_in_order};
use crate::frame::bit_set;

/// A level to drive on one of the two pins.
#[derive(Clone, Copy, Debug, PartialEq, Eq, Structural)]
pub enum Edge {
    SckLow,
    SckHigh,
    MosiLow,
    MosiHigh,
}

/// The edges of one byte: for each bit, top bit first, the clock goes low, the
/// bit is placed, and the clock goes high.
pub open spec fn byte_wave(byte: u8) -> Seq<Edge> {
    Seq::new(
        24,
        |k: int|
            if k % 3 == 0 {
                Edge::SckLow
            } else if k % 3 == 2 {
                Edge::SckHigh
            } else if bit_set(byte, 7 - k / 3) {
                Edge::MosiHigh
            } else {
                Edge::MosiLow
            },
    )
}

/// The edges of several bytes in turn.
pub open spec fn bytes_wave(words: Seq<u8>) -> Seq<Edge>
    decreases words.len(),
{
    if words.len() == 0 {
        Seq::empty()
    } else {
        bytes_wave(words.drop_last()) + byte_wave(words.last())
    }
}

/// The edges of a write. The clock is left idle low, so that the next
/// transaction starts from mode 0's resting state rather than mid-bit.
pub open spec fn write_wave(words: Seq<u8>) -> Seq<Edge> {
    bytes_wave(words).push(Edge::SckLow)
}

/// The edges of a transfer in place: a write for each word.
pub open spec fn words_wave(words: Seq<u8>) -> Seq<Edge>
    decreases words.len(),
{
    if words.len() == 0 {
        Seq::empty()
    } else {
        words_wave(words.drop_last()) + write_wave(seq![words.last()])
    }
}

/// Edge `k` of a wave, if it has one.
pub open spec fn edge_at(wave: Seq<Edge>, k: int) -> Option<Edge> {
    if 0 <= k < wave.len() {
        Some(wave[k])
    } else {
        None
    }
}

/// What the panel sees of the two pins.
pub struct Pins {
    pub sck: bool,
    pub mosi: bool,
    /// The data line at each rising edge of the clock so far.
    pub sampled: Seq<bool>,
    /// Whether the data line has only been driven while the clock was low.
    pub steady: bool,
}

impl Pins {
    /// The pins after one more edge.
    pub open spec fn after(self, edge: Edge) -> Pins {
        match edge {
            Edge::SckLow => Pins { sck: false, ..self },
            Edge::SckHigh => Pins {
                sck: true,
                sampled: if self.sck {
                    self.sampled
                } else {
                    self.sampled.push(self.mosi)
                },
                ..self
            },
            Edge::MosiLow => Pins { mosi: false, steady: self.steady && !self.sck, ..self },
            Edge::MosiHigh => Pins { mosi: true, steady: self.steady && !self.sck, ..self },
        }
    }

    /// The pins after a wave.
    pub open spec fn driven(self, wave: Seq<Edge>) -> Pins
        decreases wave.len(),
    {
        if wave.len() == 0 {
            self
        } else {
            self.driven(wave.drop_last()).after(wave.last())
        }
    }
}

/// Two waves, one after the other.
proof fn lemma_driven_concat(pins: Pins, a: Seq<Edge>, b: Seq<Edge>)
    ensures
        pins.driven(a + b) == pins.driven(a).driven(b),
    decreases b.len(),
{
    if b.len() == 0 {
        assert(a + b =~= a);
    } else {
        assert((a + b).drop_last() =~= a + b.drop_last());
        lemma_driven_concat(pins, a, b.drop_last());
    }
}

/// The first `n` bits of a byte.
proof fn lemma_byte_driven(pins: Pins, byte: u8, n: int)
    requires
        0 <= n <= 8,
    ensures
        ({
            let end = pins.driven(byte_wave(byte).take(3 * n));
            &&& end.sampled == pins.sampled + byte_bits(byte).take(n)
            &&& end.steady == pins.steady
            &&& n > 0 ==> end.sck
            &&& n == 0 ==> end == pins
        }),
    decreases n,
{
    let wave = byte_wave(byte);
    if n == 0 {
        assert(wave.take(0) =~= Seq::<Edge>::empty());
        assert(pins.sampled + byte_bits(byte).take(0) =~= pins.sampled);
    } else {
        lemma_byte_driven(pins, byte, n - 1);
        let k = 3 * (n - 1);
        let bit = if bit_set(byte, 7 - (n - 1)) {
            Edge::MosiHigh
        } else {
            Edge::MosiLow
        };
        assert(wave[k] == Edge::SckLow);
        assert(wave[k + 1] == bit);
        assert(wave[k + 2] == Edge::SckHigh);
        assert(wave.take(k + 3).drop_last() =~= wave.take(k + 2));
        assert(wave.take(k + 2).drop_last() =~= wave.take(k + 1));
        assert(wave.take(k + 1).drop_last() =~= wave.take(k));
        let p0 = pins.driven(wave.take(k));
        assert(pins.driven(wave.take(k + 1)) == p0.after(Edge::SckLow));
        assert(pins.driven(wave.take(k + 2)) == p0.after(Edge::SckLow).after(bit));
        assert(pins.driven(wave.take(k + 3)) == p0.after(Edge::SckLow).after(bit).after(
            Edge::SckHigh,
        ));
        assert(byte_bits(byte).take(n) =~= byte_bits(byte).take(n - 1).push(
            byte_bits(byte)[n - 1],
        ));
        assert(pins.sampled + byte_bits(byte).take(n) =~= (pins.sampled + byte_bits(byte).take(
            n - 1,
        )).push(byte_bits(byte)[n - 1]));
    }
}

/// Several bytes.
proof fn lemma_bytes_driven(pins: Pins, words: Seq<u8>)
    ensures
        pins.driven(bytes_wave(words)).sampled == pins.sampled + all_bits(words),
        pins.driven(bytes_wave(words)).steady == pins.steady,
    decreases words.len(),
{
    if words.len() == 0 {
        assert(pins.sampled + all_bits(words) =~= pins.sampled);
    } else {
        let most = bytes_wave(words.drop_last());
        let last = byte_wave(words.last());
        lemma_bytes_driven(pins, words.drop_last());
        lemma_driven_concat(pins, most, last);
        lemma_byte_driven(pins.driven(most), words.last(), 8);
        assert(last.take(24) =~= last);
        assert(byte_bits(words.last()).take(8) =~= byte_bits(words.last()));
        assert(pins.sampled + all_bits(words) =~= (pins.sampled + all_bits(words.drop_last()))
            + byte_bits(words.last()));
    }
}

/// The panel samples the data line on the rising edge of the clock. After a
/// write it has sampled the bits of the bytes, top bit first and nothing else,
/// the data line has only moved while the clock was low, and the clock rests
/// low.
pub proof fn law_panel_samples_what_was_written(pins: Pins, words: Seq<u8>)
    ensures
        pins.driven(write_wave(words)).sampled == pins.sampled + all_bits(words),
        pins.steady ==> pins.driven(write_wave(words)).steady,
        !pins.driven(write_wave(words)).sck,
{
    lemma_bytes_driven(pins, words);
    assert(write_wave(words).drop_last() =~= bytes_wave(words));
}

/// Two writes that the panel cannot tell apart wrote the same bytes.
pub proof fn law_writes_are_told_apart(pins: Pins, a: Seq<u8>, b: Seq<u8>)
    requires
        pins.driven(write_wave(a)).sampled == pins.driven(write_wave(b)).sampled,
    ensures
        a == b,
{
    law_panel_samples_what_was_written(pins, a);
    law_panel_samples_what_was_written(pins, b);
    let n = pins.sampled.len() as int;
    assert((pins.sampled + all_bits(a)).skip(n) =~= all_bits(a));
    assert((pins.sampled + all_bits(b)).skip(n) =~= all_bits(b));
    law_bits_decide_the_bytes(a, b);
}

/// A transfer in place puts the same bits on the wire as a write.
pub proof fn law_transfer_in_place_writes_the_words(pins: Pins, words: Seq<u8>)
    ensures
        pins.driven(words_wave(words)).sampled == pins.driven(write_wave(words)).sampled,
        pins.steady ==> pins.driven(words_wave(words)).steady,
        words.len() > 0 ==> !pins.driven(words_wave(words)).sck,
    decreases words.len(),
{
    law_panel_samples_what_was_written(pins, words);
    if words.len() == 0 {
        assert(pins.sampled + all_bits(words) =~= pins.sampled);
    } else {
        let most = words_wave(words.drop_last());
        let last = seq![words.last()];
        law_transfer_in_place_writes_the_words(pins, words.drop_last());
        law_panel_samples_what_was_written(pins, words.drop_last());
        lemma_driven_concat(pins, most, write_wave(last));
        law_panel_samples_what_was_written(pins.driven(most), last);
        assert(last.drop_last() =~= Seq::<u8>::empty());
        assert(all_bits(last.drop_last()) =~= Seq::<bool>::empty());
        assert(all_bits(last) =~= byte_bits(words.last()));
        assert(pins.sampled + all_bits(words) =~= (pins.sampled + all_bits(words.drop_last()))
            + all_bits(last));
    }
}

/// Fill a buffer with 0xFF.
fn fill_undriven(words: &mut [u8])
    ensures
        final(words)@ == Seq::new(old(words)@.len(), |i: int| 0xFFu8),
{
    let mut i: usize = 0;
    while i < words.len()
        invariant
            i <= words@.len(),
            words@.len() == old(words)@.len(),
            forall|j: int| 0 <= j < i ==> words@[j] == 0xFF,
        decreases words@.len() - i,
    {
        words[i] = 0xFF;
        i += 1;
    }
    assert(words@ =~= Seq::new(old(words)@.len(), |i: int| 0xFFu8));
}

/// MSB-first SPI mode 0 over two pins: data is placed while the clock is low
/// and the panel samples it on the rising edge.
///
/// Write-only. MISO is not wired, so the reading half returns 0xFF, what an
/// undriven line reads as, rather than leaving the caller's buffer untouched
/// and reporting success.
pub struct BitBangSpi<SCK, MOSI> {
    pub sck: SCK,
    pub mosi: MOSI,
}

impl<SCK, MOSI> BitBangSpi<SCK, MOSI> {
    /// Takes the clock and data pins. Both must already be push-pull outputs.
    /// The edge to drive leaves the clock low, which is mode 0's idle state.
    pub fn new(sck: SCK, mosi: MOSI) -> (made: (Self, Edge))
        ensures
            made.0.sck == sck,
            made.0.mosi == mosi,
            made.1 == Edge::SckLow,
    {
        (BitBangSpi { sck, mosi }, Edge::SckLow)
    }

    /// Edge `k` of writing `words`, or `None` when the write is over.
    pub fn write(&self, words: &[u8], k: usize) -> (edge: Option<Edge>)
        ensures
            edge == edge_at(write_wave(words@), k as int),
    {
        let i: usize = k / 24;
        let step: usize = k % 24;
        proof {
            lemma_bytes_wave(words@, k as int);
        }
        if i < words.len() {
            let byte: u8 = words[i];
            Some(byte_edge(byte, step))
        } else if i == words.len() && step == 0 {
            Some(Edge::SckLow)
        } else {
            None
        }
    }

    /// There is no data to return: fills with 0xFF.
    pub fn read(&self, words: &mut [u8])
        ensures
            final(words)@ == Seq::new(old(words)@.len(), |i: int| 0xFFu8),
    {
        fill_undriven(words);
    }

    /// Edge `k` of writing `write`. When the write is over there is none, and
    /// `read` is filled with 0xFF.
    pub fn transfer(&self, read: &mut [u8], write: &[u8], k: usize) -> (edge: Option<Edge>)
        ensures
            edge == edge_at(write_wave(write@), k as int),
            final(read)@ == (if edge is Some {
                old(read)@
            } else {
                Seq::new(old(read)@.len(), |i: int| 0xFFu8)
            }),
    {
        let edge = self.write(write, k);
        if edge.is_none() {
            fill_undriven(read);
        }
        edge
    }

    /// Edge `k` of writing the words one by one. When the writes are over there
    /// is none, and `words` is filled with 0xFF.
    pub fn transfer_in_place(&self, words: &mut [u8], k: usize) -> (edge: Option<Edge>)
        ensures
            edge == edge_at(words_wave(old(words)@), k as int),
            final(words)@ == (if edge is Some {
                old(words)@
            } else {
                Seq::new(old(words)@.len(), |i: int| 0xFFu8)
            }),
    {
        let i: usize = k / 25;
        let step: usize = k % 25;
        proof {
            lemma_words_wave(words@, k as int);
        }
        if i < words.len() {
            let byte: u8 = words[i];
            if step < 24 {
                Some(byte_edge(byte, step))
            } else {
                Some(Edge::SckLow)
            }
        } else {
            fill_undriven(words);
            None
        }
    }
}

/// Edge `k` of one byte.
fn byte_edge(byte: u8, k: usize) -> (edge: Edge)
    requires
        k < 24,
    ensures
        edge == byte_wave(byte)[k as int],
{
    let bit: u8 = 7 - (k / 3) as u8;
    if k % 3 == 0 {
        Edge::SckLow
    } else if k % 3 == 2 {
        Edge::SckHigh
    } else if (byte >> bit) & 1 == 1 {
        Edge::MosiHigh
    } else {
        Edge::MosiLow
    }
}

/// Where edge `k` of a write comes from.
proof fn lemma_bytes_wave(words: Seq<u8>, k: int)
    requires
        0 <= k,
    ensures
        bytes_wave(words).len() == 24 * words.len(),
        k / 24 < words.len() ==> bytes_wave(words)[k] == byte_wave(words[k / 24])[k % 24],
    decreases words.len(),
{
    if words.len() > 0 {
        lemma_bytes_wave(words.drop_last(), k);
    }
}

/// Where edge `k` of a transfer in place comes from.
proof fn lemma_words_wave(words: Seq<u8>, k: int)
    requires
        0 <= k,
    ensures
        words_wave(words).len() == 25 * words.len(),
        k / 25 < words.len() && k % 25 < 24 ==> words_wave(words)[k] == byte_wave(
            words[k / 25],
        )[k % 25],
        k / 25 < words.len() && k % 25 == 24 ==> words_wave(words)[k] == Edge::SckLow,
    decreases words.len(),
{
    if words.len() > 0 {
        let one = seq![words.last()];
        lemma_words_wave(words.drop_last(), k);
        lemma_bytes_wave(one, k % 25);
    }
}

/// What is driven for bit `j` of byte `k` of a write, counted from the top bit: the
/// clock goes low, the data line takes the bit's level, the clock goes high. After the
/// last byte the clock goes low once more, and then nothing is driven.
pub proof fn law_edges_of_each_bit(words: Seq<u8>, k: int, j: int)
    requires
        0 <= k < words.len(),
        0 <= j < 8,
    ensures
        write_wave(words).len() == 24 * words.len() + 1,
        write_wave(words).last() == Edge::SckLow,
        write_wave(words)[24 * k + 3 * j] == Edge::SckLow,
        write_wave(words)[24 * k + 3 * j + 1] == (if (words[k] >> ((7 - j) as u8)) & 1 == 1 {
            Edge::MosiHigh
        } else {
            Edge::MosiLow
        }),
        write_wave(words)[24 * k + 3 * j + 2] == Edge::SckHigh,
{
    let at = 24 * k + 3 * j;
    lemma_bytes_wave(words, at);
    lemma_bytes_wave(words, at + 1);
    lemma_bytes_wave(words, at + 2);
    assert((at + 1) / 24 == k && (at + 1) % 24 == 3 * j + 1);
    assert((at + 2) / 24 == k && (at + 2) % 24 == 3 * j + 2);
}

/// The panel samples the bytes in the order in which they were written, each from its
/// top bit down, after whatever it had sampled before.
pub proof fn law_panel_samples_in_order(pins: Pins, words: Seq<u8>, k: int, j: int)
    requires
        0 <= k < words.len(),
        0 <= j < 8,
    ensures
        ({
            let sampled = pins.driven(write_wave(words)).sampled;
            let before = pins.sampled.len() as int;
            &&& sampled.len() == before + 8 * words.len()
            &&& sampled.take(before) == pins.sampled
            &&& sampled[before + 8 * k + j] == ((words[k] >> ((7 - j) as u8)) & 1 == 1)
        }),
{
    law_panel_samples_what_was_written(pins, words);
    law_bits_travel_in_order(words, k, j);
    let sampled = pins.driven(write_wave(words)).sampled;
    assert(sampled.take(pins.sampled.len() as int) =~= pins.sampled);
}

/// Writing one thing after another drives and samples them in turn.
pub proof fn law_edges_take_effect_in_turn(pins: Pins, wave: Seq<Edge>, edge: Edge)
    ensures
        pins.driven(Seq::empty()) == pins,
        pins.driven(wave.push(edge)) == pins.driven(wave).after(edge),
        pins.after(Edge::SckLow).sck == false,
        pins.after(Edge::SckHigh).sck == true,
        pins.after(Edge::MosiLow).mosi == false,
        pins.after(Edge::MosiHigh).mosi == true,
        pins.after(Edge::SckHigh).sampled == (if pins.sck {
            pins.sampled
        } else {
            pins.sampled.push(pins.mosi)
        }),
        !(edge == Edge::SckHigh) ==> pins.after(edge).sampled == pins.sampled,
{
    assert(wave.push(edge).drop_last() =~= wave);
}

/// A transfer in place writes each word on its own, in order, so the clock rests low
/// after every one of them.
pub proof fn law_edges_of_each_word(words: Seq<u8>, k: int, i: int)
    requires
        0 <= k < words.len(),
        0 <= i < 25,
    ensures
        words_wave(words).len() == 25 * words.len(),
        words_wave(words)[25 * k + i] == write_wave(seq![words[k]])[i],
        words_wave(words)[25 * k + 24] == Edge::SckLow,
{
    let one = seq![words[k]];
    lemma_words_wave(words, 25 * k + i);
    lemma_words_wave(words, 25 * k + 24);
    lemma_bytes_wave(one, i);
    assert((25 * k + i) / 25 == k && (25 * k + i) % 25 == i);
}

/// The edges of a transfer are handed out one by one from the first to the last, and none
/// after that.
pub proof fn law_edges_in_order(wave: Seq<Edge>, k: int)
    ensures
        0 <= k < wave.len() ==> edge_at(wave, k) == Some(wave[k]),
        k >= wave.len() ==> edge_at(wave, k) == None::<Edge>,
{
}

} // verus!
