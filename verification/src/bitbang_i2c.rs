//! Bit-banged I2C, for telling a failing bus controller from bad wiring.
//!
//! A transaction is made of blocks: a start condition, bytes, a stop condition.
//! Each block is described as what it does to the two open-drain lines, one
//! operation at a time, and the transaction decides after each block which one
//! comes next.

use vstd::prelude::*;
use vstd::string::StringExecFns;

verus! {

use crate::bits::{byte_bits, lemma_msb_first_bound, msb_first};

/// Half a clock period, about 100 kHz.
pub const HALF_PERIOD_US: u32 = 5;

/// One operation on the lines. A released line is pulled high unless another
/// chip holds it low.
#[derive(Clone, Copy, Debug, PartialEq, Eq, Structural)]
pub enum LineOp {
    SdaRelease,
    SdaLow,
    SclRelease,
    SclLow,
    /// Wait for half a clock period.
    Half,
    /// Look at the data line.
    SampleSda,
}

/// One part of a transaction.
#[derive(Clone, Copy, Debug, PartialEq, Eq, Structural)]
pub enum Block {
    Start,
    Stop,
    /// Send a byte, then sample the receiver's acknowledgement.
    WriteByte(u8),
    /// Sample a byte, then acknowledge it or not.
    ReadByte(bool),
}

/// A start condition.
pub open spec fn start_ops() -> Seq<LineOp> {
    seq![
        LineOp::SdaRelease,
        LineOp::SclRelease,
        LineOp::Half,
        LineOp::SdaLow,
        LineOp::Half,
        LineOp::SclLow,
    ]
}

/// A stop condition.
pub open spec fn stop_ops() -> Seq<LineOp> {
    seq![
        LineOp::SdaLow,
        LineOp::Half,
        LineOp::SclRelease,
        LineOp::Half,
        LineOp::SdaRelease,
        LineOp::Half,
    ]
}

/// Sending one bit.
pub open spec fn write_bit_ops(bit: bool) -> Seq<LineOp> {
    seq![
        if bit {
            LineOp::SdaRelease
        } else {
            LineOp::SdaLow
        },
        LineOp::Half,
        LineOp::SclRelease,
        LineOp::Half,
        LineOp::SclLow,
    ]
}

/// Sampling one bit.
pub open spec fn read_bit_ops() -> Seq<LineOp> {
    seq![
        LineOp::SdaRelease,
        LineOp::Half,
        LineOp::SclRelease,
        LineOp::Half,
        LineOp::SampleSda,
        LineOp::SclLow,
    ]
}

/// Sending bits in turn.
pub open spec fn write_bits_ops(bits: Seq<bool>) -> Seq<LineOp>
    decreases bits.len(),
{
    if bits.len() == 0 {
        Seq::empty()
    } else {
        write_bits_ops(bits.drop_last()) + write_bit_ops(bits.last())
    }
}

/// Sampling `n` bits in turn.
pub open spec fn read_bits_ops(n: nat) -> Seq<LineOp>
    decreases n,
{
    if n == 0 {
        Seq::empty()
    } else {
        read_bits_ops((n - 1) as nat) + read_bit_ops()
    }
}

/// Sending a byte, top bit first, and sampling the acknowledgement.
pub open spec fn write_byte_ops(byte: u8) -> Seq<LineOp> {
    write_bits_ops(byte_bits(byte)) + read_bit_ops()
}

/// Sampling a byte, top bit first, and acknowledging it or not.
pub open spec fn read_byte_ops(ack: bool) -> Seq<LineOp> {
    read_bits_ops(8) + write_bit_ops(!ack)
}

/// What a block does to the lines.
pub open spec fn block_ops(block: Block) -> Seq<LineOp> {
    match block {
        Block::Start => start_ops(),
        Block::Stop => stop_ops(),
        Block::WriteByte(byte) => write_byte_ops(byte),
        Block::ReadByte(ack) => read_byte_ops(ack),
    }
}

/// Operation `k` of a list, if it has one.
pub open spec fn op_at(ops: Seq<LineOp>, k: int) -> Option<LineOp> {
    if 0 <= k < ops.len() {
        Some(ops[k])
    } else {
        None
    }
}

/// The two lines as this side leaves them: `true` is released.
pub struct Lines {
    pub sda: bool,
    pub scl: bool,
    /// The data line at each rise of the clock so far.
    pub clocked: Seq<bool>,
    /// Whether the data line has only changed while the clock was low.
    pub steady: bool,
}

impl Lines {
    /// The lines after one operation.
    pub open spec fn after(self, op: LineOp) -> Lines {
        match op {
            LineOp::SdaRelease => Lines {
                sda: true,
                steady: self.steady && (self.sda || !self.scl),
                ..self
            },
            LineOp::SdaLow => Lines {
                sda: false,
                steady: self.steady && (!self.sda || !self.scl),
                ..self
            },
            LineOp::SclRelease => Lines {
                scl: true,
                clocked: if self.scl {
                    self.clocked
                } else {
                    self.clocked.push(self.sda)
                },
                ..self
            },
            LineOp::SclLow => Lines { scl: false, ..self },
            LineOp::Half => self,
            LineOp::SampleSda => self,
        }
    }

    /// The lines after several operations.
    pub open spec fn driven(self, ops: Seq<LineOp>) -> Lines
        decreases ops.len(),
    {
        if ops.len() == 0 {
            self
        } else {
            self.driven(ops.drop_last()).after(ops.last())
        }
    }
}

proof fn lemma_driven_concat(lines: Lines, a: Seq<LineOp>, b: Seq<LineOp>)
    ensures
        lines.driven(a + b) == lines.driven(a).driven(b),
    decreases b.len(),
{
    if b.len() == 0 {
        assert(a + b =~= a);
    } else {
        assert((a + b).drop_last() =~= a + b.drop_last());
        lemma_driven_concat(lines, a, b.drop_last());
    }
}

/// One bit sent.
proof fn lemma_write_bit(lines: Lines, bit: bool)
    requires
        !lines.scl,
    ensures
        lines.driven(write_bit_ops(bit)) == (Lines {
            sda: bit,
            clocked: lines.clocked.push(bit),
            ..lines
        }),
{
    let ops = write_bit_ops(bit);
    let o4 = ops.drop_last();
    let o3 = o4.drop_last();
    let o2 = o3.drop_last();
    let o1 = o2.drop_last();
    assert(lines.driven(o1.drop_last()) == lines);
    let first = lines.after(ops[0]);
    assert(lines.driven(o1) == first);
    assert(lines.driven(o2) == first);
    assert(lines.driven(o3) == first.after(LineOp::SclRelease));
    assert(lines.driven(o4) == first.after(LineOp::SclRelease));
}

/// One bit sampled.
proof fn lemma_read_bit(lines: Lines)
    requires
        !lines.scl,
    ensures
        lines.driven(read_bit_ops()) == (Lines {
            sda: true,
            clocked: lines.clocked.push(true),
            ..lines
        }),
{
    let ops = read_bit_ops();
    let o5 = ops.drop_last();
    let o4 = o5.drop_last();
    let o3 = o4.drop_last();
    let o2 = o3.drop_last();
    let o1 = o2.drop_last();
    assert(lines.driven(o1.drop_last()) == lines);
    let first = lines.after(LineOp::SdaRelease);
    assert(lines.driven(o1) == first);
    assert(lines.driven(o2) == first);
    assert(lines.driven(o3) == first.after(LineOp::SclRelease));
    assert(lines.driven(o4) == first.after(LineOp::SclRelease));
    assert(lines.driven(o5) == first.after(LineOp::SclRelease));
}

/// Several bits sent.
proof fn lemma_write_bits(lines: Lines, bits: Seq<bool>)
    requires
        !lines.scl,
    ensures
        ({
            let end = lines.driven(write_bits_ops(bits));
            &&& !end.scl
            &&& end.clocked == lines.clocked + bits
            &&& end.steady == lines.steady
        }),
    decreases bits.len(),
{
    if bits.len() == 0 {
        assert(lines.clocked + bits =~= lines.clocked);
    } else {
        let most = write_bits_ops(bits.drop_last());
        lemma_write_bits(lines, bits.drop_last());
        lemma_driven_concat(lines, most, write_bit_ops(bits.last()));
        lemma_write_bit(lines.driven(most), bits.last());
        assert(lines.clocked + bits =~= (lines.clocked + bits.drop_last()).push(bits.last()));
    }
}

/// Several bits sampled.
proof fn lemma_read_bits(lines: Lines, n: nat)
    requires
        !lines.scl,
    ensures
        ({
            let end = lines.driven(read_bits_ops(n));
            &&& !end.scl
            &&& end.clocked == lines.clocked + Seq::new(n, |i: int| true)
            &&& end.steady == lines.steady
        }),
    decreases n,
{
    let all = Seq::new(n, |i: int| true);
    if n == 0 {
        assert(lines.clocked + all =~= lines.clocked);
    } else {
        let less = (n - 1) as nat;
        let most = read_bits_ops(less);
        lemma_read_bits(lines, less);
        lemma_driven_concat(lines, most, read_bit_ops());
        lemma_read_bit(lines.driven(most));
        assert(lines.clocked + all =~= (lines.clocked + Seq::new(less, |i: int| true)).push(true));
    }
}

/// The receiver of a byte sees its eight bits, top bit first, one per clock, and
/// then a released line for its acknowledgement. The data line does not move
/// while the clock is high.
pub proof fn law_byte_on_the_wire(lines: Lines, byte: u8)
    requires
        !lines.scl,
    ensures
        ({
            let end = lines.driven(write_byte_ops(byte));
            &&& end.clocked == (lines.clocked + byte_bits(byte)).push(true)
            &&& end.steady == lines.steady
            &&& !end.scl
        }),
{
    lemma_write_bits(lines, byte_bits(byte));
    lemma_driven_concat(lines, write_bits_ops(byte_bits(byte)), read_bit_ops());
    lemma_read_bit(lines.driven(write_bits_ops(byte_bits(byte))));
}

/// The sender of a byte finds the line released for eight clocks and then held
/// low if the byte is acknowledged. The data line does not move while the clock
/// is high.
pub proof fn law_byte_is_left_to_the_sender(lines: Lines, ack: bool)
    requires
        !lines.scl,
    ensures
        ({
            let end = lines.driven(read_byte_ops(ack));
            &&& end.clocked == (lines.clocked + Seq::new(8, |i: int| true)).push(!ack)
            &&& end.steady == lines.steady
            &&& !end.scl
        }),
{
    lemma_read_bits(lines, 8);
    lemma_driven_concat(lines, read_bits_ops(8), write_bit_ops(!ack));
    lemma_write_bit(lines.driven(read_bits_ops(8)), !ack);
}

/// A start condition takes both lines, whatever state they were in.
pub proof fn law_start_takes_the_bus(lines: Lines)
    ensures
        !lines.driven(start_ops()).sda,
        !lines.driven(start_ops()).scl,
{
    let o5 = start_ops().drop_last();
    let o4 = o5.drop_last();
    assert(!lines.driven(o4).sda);
    assert(!lines.driven(o5).sda);
}

/// A stop condition leaves both lines released, whatever state they were in.
pub proof fn law_stop_frees_the_bus(lines: Lines)
    ensures
        lines.driven(stop_ops()).sda,
        lines.driven(stop_ops()).scl,
{
    let o5 = stop_ops().drop_last();
    let o4 = o5.drop_last();
    let o3 = o4.drop_last();
    assert(lines.driven(o3).scl);
    assert(lines.driven(o4).scl);
    assert(lines.driven(o5).sda && lines.driven(o5).scl);
}

/// Where operation `k` of sending bits comes from.
proof fn lemma_write_bits_at(bits: Seq<bool>, k: int)
    requires
        0 <= k,
    ensures
        write_bits_ops(bits).len() == 5 * bits.len(),
        k / 5 < bits.len() ==> write_bits_ops(bits)[k] == write_bit_ops(bits[k / 5])[k % 5],
    decreases bits.len(),
{
    if bits.len() > 0 {
        lemma_write_bits_at(bits.drop_last(), k);
    }
}

/// Where operation `k` of sampling bits comes from.
proof fn lemma_read_bits_at(n: nat, k: int)
    requires
        0 <= k,
    ensures
        read_bits_ops(n).len() == 6 * n,
        k / 6 < n ==> read_bits_ops(n)[k] == read_bit_ops()[k % 6],
    decreases n,
{
    if n > 0 {
        lemma_read_bits_at((n - 1) as nat, k);
    }
}

/// Why a transaction failed.
#[derive(Clone, Copy, Debug, PartialEq, Eq, Structural)]
pub enum Nack {
    /// No chip answered to its address, for writing.
    AddressWrite,
    /// The chip refused a byte.
    Data,
    /// No chip answered to its address, for reading.
    AddressRead,
}

/// How a failure is shown.
pub open spec fn nack_text(nack: Nack) -> Seq<char> {
    match nack {
        Nack::AddressWrite => "addr-w NACK"@,
        Nack::Data => "data NACK"@,
        Nack::AddressRead => "addr-r NACK"@,
    }
}

impl Nack {
    /// How this failure is shown.
    pub fn text(&self) -> (s: &'static str)
        ensures
            s@ == nack_text(*self),
    {
        match self {
            Nack::AddressWrite => "addr-w NACK",
            Nack::Data => "data NACK",
            Nack::AddressRead => "addr-r NACK",
        }
    }
}

/// What part of a write or of a read is under way.
#[derive(Clone, Copy, Debug, PartialEq, Eq)]
pub enum Stage {
    Start,
    Address,
    /// The byte in this place.
    Data(usize),
    /// The stop condition, with what the transaction came to.
    Stop(Result<(), Nack>),
}

/// What to do after a block.
#[derive(Clone, Copy, Debug, PartialEq, Eq)]
pub enum Next {
    Go(Stage),
    Finished(Result<(), Nack>),
}

/// What part of a probe is under way.
#[derive(Clone, Copy, Debug, PartialEq, Eq, Structural)]
pub enum ProbeStage {
    Start,
    Address,
    /// The stop condition, with whether a chip answered.
    Stop(bool),
}

/// What to do after a block of a probe.
#[derive(Clone, Copy, Debug, PartialEq, Eq, Structural)]
pub enum ProbeNext {
    Go(ProbeStage),
    Finished(bool),
}

/// What part of freeing a stuck bus is under way.
#[derive(Clone, Copy, Debug, PartialEq, Eq, Structural)]
pub enum RecoverStage {
    /// Release both lines.
    Release,
    /// Look at both lines; so many clock pulses were given.
    Check(u32),
    /// Give a clock pulse; so many were given before.
    Pulse(u32),
    Stop,
}

/// What to do after a part of freeing a stuck bus.
#[derive(Clone, Copy, Debug, PartialEq, Eq, Structural)]
pub enum RecoverNext {
    Go(RecoverStage),
    Finished,
}

/// The first byte of a write: the address, and a clear bit.
pub open spec fn write_address(addr: u8) -> u8 {
    (2 * addr as int % 256) as u8
}

/// The first byte of a read: the address, and a set bit.
pub open spec fn read_address(addr: u8) -> u8 {
    (2 * addr as int % 256 + 1) as u8
}

/// The block of a stage of a write.
pub open spec fn write_block(addr: u8, data: Seq<u8>, stage: Stage) -> Block {
    match stage {
        Stage::Start => Block::Start,
        Stage::Address => Block::WriteByte(write_address(addr)),
        Stage::Data(i) => Block::WriteByte(data[i as int]),
        Stage::Stop(_) => Block::Stop,
    }
}

/// The block of a stage of a read of `len` bytes. Every byte but the last is
/// acknowledged.
pub open spec fn read_block(addr: u8, len: nat, stage: Stage) -> Block {
    match stage {
        Stage::Start => Block::Start,
        Stage::Address => Block::WriteByte(read_address(addr)),
        Stage::Data(i) => Block::ReadByte(i + 1 < len),
        Stage::Stop(_) => Block::Stop,
    }
}

/// The stage that handles byte `i`, or the end of a transaction that went
/// through.
pub open spec fn byte_stage(i: int, len: nat) -> Stage {
    if i < len {
        Stage::Data(i as usize)
    } else {
        Stage::Stop(Ok(()))
    }
}

/// What happens after a stage of a write. An unacknowledged byte ends it.
pub open spec fn after_write(stage: Stage, len: nat, acked: bool) -> Next {
    match stage {
        Stage::Start => Next::Go(Stage::Address),
        Stage::Address => if acked {
            Next::Go(byte_stage(0, len))
        } else {
            Next::Go(Stage::Stop(Err(Nack::AddressWrite)))
        },
        Stage::Data(i) => if acked {
            Next::Go(byte_stage(i + 1, len))
        } else {
            Next::Go(Stage::Stop(Err(Nack::Data)))
        },
        Stage::Stop(result) => Next::Finished(result),
    }
}

/// What happens after a stage of a read. Only the address can be refused.
pub open spec fn after_read(stage: Stage, len: nat, acked: bool) -> Next {
    match stage {
        Stage::Start => Next::Go(Stage::Address),
        Stage::Address => if acked {
            Next::Go(byte_stage(0, len))
        } else {
            Next::Go(Stage::Stop(Err(Nack::AddressRead)))
        },
        Stage::Data(i) => Next::Go(byte_stage(i + 1, len)),
        Stage::Stop(result) => Next::Finished(result),
    }
}

/// The block of a stage of a probe: the address alone, between a start and a stop
/// condition.
pub open spec fn probe_block(addr: u8, stage: ProbeStage) -> Block {
    match stage {
        ProbeStage::Start => Block::Start,
        ProbeStage::Address => Block::WriteByte(write_address(addr)),
        ProbeStage::Stop(_) => Block::Stop,
    }
}

/// What happens after a stage of a probe.
pub open spec fn after_probe(stage: ProbeStage, acked: bool) -> ProbeNext {
    match stage {
        ProbeStage::Start => ProbeNext::Go(ProbeStage::Address),
        ProbeStage::Address => ProbeNext::Go(ProbeStage::Stop(acked)),
        ProbeStage::Stop(answered) => ProbeNext::Finished(answered),
    }
}

/// Whether a stage can occur in a transaction of `len` bytes.
pub open spec fn valid(stage: Stage, len: nat) -> bool {
    stage matches Stage::Data(i) ==> i < len
}

/// Letting go of both lines and waiting for them to settle, before they are looked
/// at.
pub open spec fn release_ops() -> Seq<LineOp> {
    seq![LineOp::SdaRelease, LineOp::SclRelease, LineOp::Half]
}

/// What a part of freeing a stuck bus does to the lines.
pub open spec fn recover_ops(stage: RecoverStage) -> Seq<LineOp> {
    match stage {
        RecoverStage::Release => release_ops(),
        RecoverStage::Check(_) => Seq::empty(),
        RecoverStage::Pulse(_) => seq![
            LineOp::SclLow,
            LineOp::Half,
            LineOp::SclRelease,
            LineOp::Half,
        ],
        RecoverStage::Stop => stop_ops(),
    }
}

/// What happens after a part of freeing a stuck bus, at the end of which the
/// lines read `sda` and `scl`.
pub open spec fn after_recover(stage: RecoverStage, sda: bool, scl: bool) -> RecoverNext {
    match stage {
        RecoverStage::Release => RecoverNext::Go(RecoverStage::Check(0)),
        RecoverStage::Check(n) => if sda && scl {
            RecoverNext::Go(RecoverStage::Stop)
        } else {
            RecoverNext::Go(RecoverStage::Pulse(n))
        },
        RecoverStage::Pulse(n) => if n + 1 < 9 {
            RecoverNext::Go(RecoverStage::Check((n + 1) as u32))
        } else {
            RecoverNext::Go(RecoverStage::Stop)
        },
        RecoverStage::Stop => RecoverNext::Finished,
    }
}

/// What the levels of the two lines read like.
pub open spec fn levels_text(label: Seq<char>, sda: bool, scl: bool) -> Seq<char> {
    label + ": SDA="@ + level_text(sda) + " SCL="@ + level_text(scl)
}

/// What one level reads like.
pub open spec fn level_text(high: bool) -> Seq<char> {
    if high {
        "HIGH"@
    } else {
        "LOW"@
    }
}

fn level_str(high: bool) -> (s: &'static str)
    ensures
        s@ == level_text(high),
{
    if high {
        "HIGH"
    } else {
        "LOW"
    }
}

/// A bus on two pins.
pub struct BitbangI2c<SDA, SCL> {
    pub sda: SDA,
    pub scl: SCL,
}

impl<SDA, SCL> BitbangI2c<SDA, SCL> {
    /// Takes the two pins. Both must already be pulled up and released.
    pub fn new(sda: SDA, scl: SCL) -> (this: Self)
        ensures
            this.sda == sda,
            this.scl == scl,
    {
        BitbangI2c { sda, scl }
    }

    /// A start condition.
    pub fn start(&self) -> (ops: [LineOp; 6])
        ensures
            ops@ == start_ops(),
    {
        let ops = [
            LineOp::SdaRelease,
            LineOp::SclRelease,
            LineOp::Half,
            LineOp::SdaLow,
            LineOp::Half,
            LineOp::SclLow,
        ];
        assert(ops@ =~= start_ops());
        ops
    }

    /// A stop condition.
    pub fn stop(&self) -> (ops: [LineOp; 6])
        ensures
            ops@ == stop_ops(),
    {
        let ops = [
            LineOp::SdaLow,
            LineOp::Half,
            LineOp::SclRelease,
            LineOp::Half,
            LineOp::SdaRelease,
            LineOp::Half,
        ];
        assert(ops@ =~= stop_ops());
        ops
    }

    /// Sending one bit.
    pub fn write_bit(&self, bit: bool) -> (ops: [LineOp; 5])
        ensures
            ops@ == write_bit_ops(bit),
    {
        let sda = if bit {
            LineOp::SdaRelease
        } else {
            LineOp::SdaLow
        };
        let ops = [sda, LineOp::Half, LineOp::SclRelease, LineOp::Half, LineOp::SclLow];
        assert(ops@ =~= write_bit_ops(bit));
        ops
    }

    /// Sampling one bit.
    pub fn read_bit(&self) -> (ops: [LineOp; 6])
        ensures
            ops@ == read_bit_ops(),
    {
        let ops = [
            LineOp::SdaRelease,
            LineOp::Half,
            LineOp::SclRelease,
            LineOp::Half,
            LineOp::SampleSda,
            LineOp::SclLow,
        ];
        assert(ops@ =~= read_bit_ops());
        ops
    }

    /// Operation `k` of sending a byte and sampling its acknowledgement, or
    /// `None` when that is over.
    pub fn write_byte(&self, byte: u8, k: usize) -> (op: Option<LineOp>)
        ensures
            op == op_at(write_byte_ops(byte), k as int),
    {
        proof {
            lemma_write_bits_at(byte_bits(byte), k as int);
        }
        if k < 40 {
            let i: u8 = (k / 5) as u8;
            let shift: u8 = 7 - i;
            let bit = self.write_bit((byte >> shift) & 1 != 0);
            proof {
                assert((byte >> shift) & 1 == 0 || (byte >> shift) & 1 == 1) by (bit_vector);
                assert(byte_bits(byte)[i as int] == ((byte >> shift) & 1 == 1));
            }
            Some(bit[k % 5])
        } else if k < 46 {
            let bit = self.read_bit();
            Some(bit[k - 40])
        } else {
            None
        }
    }

    /// Operation `k` of sampling a byte and acknowledging it or not, or `None`
    /// when that is over.
    pub fn read_byte(&self, ack: bool, k: usize) -> (op: Option<LineOp>)
        ensures
            op == op_at(read_byte_ops(ack), k as int),
    {
        proof {
            lemma_read_bits_at(8, k as int);
        }
        if k < 48 {
            let bit = self.read_bit();
            Some(bit[k % 6])
        } else if k < 53 {
            let bit = self.write_bit(!ack);
            Some(bit[k - 48])
        } else {
            None
        }
    }

    /// Operation `k` of a block, or `None` when the block is over.
    pub fn block_op(&self, block: Block, k: usize) -> (op: Option<LineOp>)
        ensures
            op == op_at(block_ops(block), k as int),
    {
        match block {
            Block::Start => {
                let ops = self.start();
                if k < 6 {
                    Some(ops[k])
                } else {
                    None
                }
            },
            Block::Stop => {
                let ops = self.stop();
                if k < 6 {
                    Some(ops[k])
                } else {
                    None
                }
            },
            Block::WriteByte(byte) => self.write_byte(byte, k),
            Block::ReadByte(ack) => self.read_byte(ack, k),
        }
    }

    /// Whether the sample at the end of a byte acknowledges it: the receiver
    /// holds the line low.
    pub fn acked(&self, sample: bool) -> (acked: bool)
        ensures
            acked == !sample,
    {
        !sample
    }

    /// The byte that eight samples spell, top bit first.
    pub fn byte_of(&self, samples: &[bool; 8]) -> (byte: u8)
        ensures
            byte == msb_first(samples@),
    {
        let mut byte: u8 = 0;
        let mut i: usize = 0;
        assert(samples@.take(0) =~= Seq::<bool>::empty());
        proof {
            vstd::arithmetic::power2::lemma2_to64();
        }
        while i < 8
            invariant
                i <= 8,
                byte == msb_first(samples@.take(i as int)),
                vstd::arithmetic::power2::pow2(7) == 128,
            decreases 8 - i,
        {
            let bit: u8 = if samples[i] {
                1
            } else {
                0
            };
            proof {
                let so_far = samples@.take(i as int);
                lemma_msb_first_bound(so_far);
                assert(samples@.take(i + 1).drop_last() =~= so_far);
                if i < 7 {
                    vstd::arithmetic::power2::lemma_pow2_strictly_increases(i as nat, 7);
                }
                assert((byte << 1) | bit == 2 * byte + bit) by (bit_vector)
                    requires
                        byte < 128,
                        bit <= 1,
                ;
            }
            byte = (byte << 1) | bit;
            i += 1;
        }
        assert(samples@.take(8) =~= samples@);
        byte
    }

    /// The block of a stage of writing `data` to `addr`.
    pub fn write_block(&self, addr: u8, data: &[u8], stage: Stage) -> (block: Block)
        requires
            valid(stage, data@.len()),
        ensures
            block == write_block(addr, data@, stage),
    {
        match stage {
            Stage::Start => Block::Start,
            Stage::Address => {
                assert(addr << 1 == (2 * addr) % 256) by (bit_vector);
                Block::WriteByte(addr << 1)
            },
            Stage::Data(i) => Block::WriteByte(data[i]),
            Stage::Stop(_) => Block::Stop,
        }
    }

    /// Write `data`: what to do after the block of a stage. A write begins in
    /// [`Stage::Start`].
    pub fn write(&self, data: &[u8], stage: Stage, acked: bool) -> (next: Next)
        requires
            valid(stage, data@.len()),
        ensures
            next == after_write(stage, data@.len(), acked),
            next matches Next::Go(to) ==> valid(to, data@.len()),
    {
        match stage {
            Stage::Start => Next::Go(Stage::Address),
            Stage::Address => {
                if !acked {
                    Next::Go(Stage::Stop(Err(Nack::AddressWrite)))
                } else if data.len() > 0 {
                    Next::Go(Stage::Data(0))
                } else {
                    Next::Go(Stage::Stop(Ok(())))
                }
            },
            Stage::Data(i) => {
                if !acked {
                    Next::Go(Stage::Stop(Err(Nack::Data)))
                } else if i < data.len() - 1 {
                    Next::Go(Stage::Data(i + 1))
                } else {
                    Next::Go(Stage::Stop(Ok(())))
                }
            },
            Stage::Stop(result) => Next::Finished(result),
        }
    }

    /// The block of a stage of reading `len` bytes from `addr`.
    pub fn read_block(&self, addr: u8, len: usize, stage: Stage) -> (block: Block)
        requires
            valid(stage, len as nat),
        ensures
            block == read_block(addr, len as nat, stage),
    {
        match stage {
            Stage::Start => Block::Start,
            Stage::Address => {
                assert((addr << 1) | 1 == (2 * addr) % 256 + 1) by (bit_vector);
                Block::WriteByte((addr << 1) | 1)
            },
            Stage::Data(i) => Block::ReadByte(i < len - 1),
            Stage::Stop(_) => Block::Stop,
        }
    }

    /// Read into `buf`: what to do after the block of a stage, which sampled
    /// `byte` or the acknowledgement `acked`. A read begins in [`Stage::Start`].
    pub fn read(&self, buf: &mut [u8], stage: Stage, acked: bool, byte: u8) -> (next: Next)
        requires
            valid(stage, old(buf)@.len()),
        ensures
            next == after_read(stage, old(buf)@.len(), acked),
            next matches Next::Go(to) ==> valid(to, old(buf)@.len()),
            final(buf)@ == (match stage {
                Stage::Data(i) => old(buf)@.update(i as int, byte),
                _ => old(buf)@,
            }),
    {
        match stage {
            Stage::Start => Next::Go(Stage::Address),
            Stage::Address => {
                if !acked {
                    Next::Go(Stage::Stop(Err(Nack::AddressRead)))
                } else if buf.len() > 0 {
                    Next::Go(Stage::Data(0))
                } else {
                    Next::Go(Stage::Stop(Ok(())))
                }
            },
            Stage::Data(i) => {
                buf[i] = byte;
                if i < buf.len() - 1 {
                    Next::Go(Stage::Data(i + 1))
                } else {
                    Next::Go(Stage::Stop(Ok(())))
                }
            },
            Stage::Stop(result) => Next::Finished(result),
        }
    }

    /// The block of a stage of a probe.
    pub fn probe_block(&self, addr: u8, stage: ProbeStage) -> (block: Block)
        ensures
            block == probe_block(addr, stage),
            block == (match stage {
                ProbeStage::Start => Block::Start,
                ProbeStage::Address => Block::WriteByte(write_address(addr)),
                ProbeStage::Stop(_) => Block::Stop,
            }),
    {
        match stage {
            ProbeStage::Start => Block::Start,
            ProbeStage::Address => {
                assert(addr << 1 == (2 * addr) % 256) by (bit_vector);
                Block::WriteByte(addr << 1)
            },
            ProbeStage::Stop(_) => Block::Stop,
        }
    }

    /// Whether a chip answers to its address: what to do after the block of a
    /// stage. A probe begins in [`ProbeStage::Start`].
    pub fn probe_write_addr(&self, stage: ProbeStage, acked: bool) -> (next: ProbeNext)
        ensures
            next == after_probe(stage, acked),
            next == (match stage {
                ProbeStage::Start => ProbeNext::Go(ProbeStage::Address),
                ProbeStage::Address => ProbeNext::Go(ProbeStage::Stop(acked)),
                ProbeStage::Stop(answered) => ProbeNext::Finished(answered),
            }),
    {
        match stage {
            ProbeStage::Start => ProbeNext::Go(ProbeStage::Address),
            ProbeStage::Address => ProbeNext::Go(ProbeStage::Stop(acked)),
            ProbeStage::Stop(answered) => ProbeNext::Finished(answered),
        }
    }

    /// Operation `k` of letting go of both lines, or `None` when that is over.
    pub fn release_op(&self, k: usize) -> (op: Option<LineOp>)
        ensures
            op == op_at(release_ops(), k as int),
    {
        match k {
            0 => Some(LineOp::SdaRelease),
            1 => Some(LineOp::SclRelease),
            2 => Some(LineOp::Half),
            _ => None,
        }
    }

    /// Operation `k` of a part of freeing a stuck bus, or `None` when that part
    /// is over.
    pub fn recover_op(&self, stage: RecoverStage, k: usize) -> (op: Option<LineOp>)
        ensures
            op == op_at(recover_ops(stage), k as int),
    {
        match stage {
            RecoverStage::Release => self.release_op(k),
            RecoverStage::Check(_) => None,
            RecoverStage::Pulse(_) => match k {
                0 => Some(LineOp::SclLow),
                1 => Some(LineOp::Half),
                2 => Some(LineOp::SclRelease),
                3 => Some(LineOp::Half),
                _ => None,
            },
            RecoverStage::Stop => self.block_op(Block::Stop, k),
        }
    }

    /// Free a stuck bus: what to do after a part of it, at the end of which the
    /// lines read `sda` and `scl`. It begins in [`RecoverStage::Release`], gives
    /// up to nine clock pulses until both lines are high, and ends with a stop
    /// condition.
    pub fn recover_bus(&self, stage: RecoverStage, sda: bool, scl: bool) -> (next: RecoverNext)
        ensures
            next == after_recover(stage, sda, scl),
    {
        match stage {
            RecoverStage::Release => RecoverNext::Go(RecoverStage::Check(0)),
            RecoverStage::Check(n) => {
                if sda && scl {
                    RecoverNext::Go(RecoverStage::Stop)
                } else {
                    RecoverNext::Go(RecoverStage::Pulse(n))
                }
            },
            RecoverStage::Pulse(n) => {
                if n < 8 {
                    RecoverNext::Go(RecoverStage::Check(n + 1))
                } else {
                    RecoverNext::Go(RecoverStage::Stop)
                }
            },
            RecoverStage::Stop => RecoverNext::Finished,
        }
    }

    /// What the levels of the two lines read like. They are read after the
    /// operations of [`BitbangI2c::release_op`].
    pub fn print_levels(&self, label: &str, sda: bool, scl: bool) -> (line: String)
        ensures
            line@ == levels_text(label@, sda, scl),
    {
        let mut line = label.to_owned();
        line.append(": SDA=");
        line.append(level_str(sda));
        line.append(" SCL=");
        line.append(level_str(scl));
        line
    }
}

/// Where a write stands after its blocks ended with `acks`, and which blocks
/// those were.
pub open spec fn write_through(addr: u8, data: Seq<u8>, acks: Seq<bool>) -> (Next, Seq<Block>)
    decreases acks.len(),
{
    if acks.len() == 0 {
        (Next::Go(Stage::Start), Seq::empty())
    } else {
        let (next, blocks) = write_through(addr, data, acks.drop_last());
        match next {
            Next::Go(stage) => (
                after_write(stage, data.len(), acks.last()),
                blocks.push(write_block(addr, data, stage)),
            ),
            Next::Finished(_) => (next, blocks),
        }
    }
}

/// Where a read of `len` bytes stands after its blocks ended with `acks`, and
/// which blocks those were.
pub open spec fn read_through(addr: u8, len: nat, acks: Seq<bool>) -> (Next, Seq<Block>)
    decreases acks.len(),
{
    if acks.len() == 0 {
        (Next::Go(Stage::Start), Seq::empty())
    } else {
        let (next, blocks) = read_through(addr, len, acks.drop_last());
        match next {
            Next::Go(stage) => (
                after_read(stage, len, acks.last()),
                blocks.push(read_block(addr, len, stage)),
            ),
            Next::Finished(_) => (next, blocks),
        }
    }
}

/// The blocks of a write that is acknowledged throughout, up to its last byte.
pub open spec fn write_body(addr: u8, data: Seq<u8>) -> Seq<Block> {
    seq![Block::Start, Block::WriteByte(write_address(addr))] + Seq::new(
        data.len(),
        |i: int| Block::WriteByte(data[i]),
    )
}

/// The blocks of a read that is answered, up to its last byte.
pub open spec fn read_body(addr: u8, len: nat) -> Seq<Block> {
    seq![Block::Start, Block::WriteByte(read_address(addr))] + Seq::new(
        len,
        |i: int| Block::ReadByte(i + 1 < len),
    )
}

/// The stage after `t` blocks that were all acknowledged.
spec fn stage_at(t: int, len: nat) -> Stage {
    if t == 0 {
        Stage::Start
    } else if t == 1 {
        Stage::Address
    } else {
        byte_stage(t - 2, len)
    }
}

/// A write whose first blocks were all acknowledged.
proof fn lemma_write_so_far(addr: u8, data: Seq<u8>, acks: Seq<bool>)
    requires
        data.len() <= usize::MAX,
        acks.len() <= data.len() + 2,
        forall|i: int| 1 <= i < acks.len() ==> acks[i],
    ensures
        write_through(addr, data, acks).0 == Next::Go(stage_at(acks.len() as int, data.len())),
        write_through(addr, data, acks).1 == write_body(addr, data).take(acks.len() as int),
    decreases acks.len(),
{
    let body = write_body(addr, data);
    if acks.len() == 0 {
        assert(body.take(0) =~= Seq::<Block>::empty());
    } else {
        let t = acks.len() - 1;
        lemma_write_so_far(addr, data, acks.drop_last());
        assert(write_block(addr, data, stage_at(t, data.len())) == body[t]);
        assert(body.take(t + 1) =~= body.take(t).push(body[t]));
    }
}

/// A read whose address was acknowledged.
proof fn lemma_read_so_far(addr: u8, len: nat, acks: Seq<bool>)
    requires
        len <= usize::MAX,
        acks.len() <= len + 2,
        acks.len() > 1 ==> acks[1],
    ensures
        read_through(addr, len, acks).0 == Next::Go(stage_at(acks.len() as int, len)),
        read_through(addr, len, acks).1 == read_body(addr, len).take(acks.len() as int),
    decreases acks.len(),
{
    let body = read_body(addr, len);
    if acks.len() == 0 {
        assert(body.take(0) =~= Seq::<Block>::empty());
    } else {
        let t = acks.len() - 1;
        lemma_read_so_far(addr, len, acks.drop_last());
        assert(read_block(addr, len, stage_at(t, len)) == body[t]);
        assert(body.take(t + 1) =~= body.take(t).push(body[t]));
    }
}

/// A write that is acknowledged throughout sends a start condition, the address,
/// the bytes and a stop condition, and succeeds.
pub proof fn law_acknowledged_write_succeeds(addr: u8, data: Seq<u8>, acks: Seq<bool>)
    requires
        data.len() <= usize::MAX,
        acks.len() == data.len() + 3,
        forall|i: int| 1 <= i < data.len() + 2 ==> acks[i],
    ensures
        write_through(addr, data, acks).0 == Next::Finished(Ok(())),
        write_through(addr, data, acks).1 == write_body(addr, data).push(Block::Stop),
{
    let n = data.len() + 2;
    lemma_write_so_far(addr, data, acks.drop_last());
    assert(write_body(addr, data).take(n as int) =~= write_body(addr, data));
}

/// A write whose block `at` is the first that is not acknowledged sends nothing
/// after it but a stop condition, and fails: by the address, or by a byte.
pub proof fn law_refused_write_stops(addr: u8, data: Seq<u8>, acks: Seq<bool>, at: int)
    requires
        data.len() <= usize::MAX,
        1 <= at < data.len() + 2,
        acks.len() == at + 2,
        forall|i: int| 1 <= i < at ==> acks[i],
        !acks[at],
    ensures
        write_through(addr, data, acks).0 == Next::Finished(
            Err(
                if at == 1 {
                    Nack::AddressWrite
                } else {
                    Nack::Data
                },
            ),
        ),
        write_through(addr, data, acks).1 == write_body(addr, data).take(at + 1).push(Block::Stop),
{
    let before = acks.take(at);
    let refused = acks.take(at + 1);
    assert(acks.drop_last() =~= refused);
    assert(refused.drop_last() =~= before);
    lemma_write_so_far(addr, data, before);
    let body = write_body(addr, data);
    assert(write_block(addr, data, stage_at(at, data.len())) == body[at]);
    assert(body.take(at + 1) =~= body.take(at).push(body[at]));
    assert(write_through(addr, data, refused).0 == after_write(
        stage_at(at, data.len()),
        data.len(),
        false,
    ));
    assert(write_through(addr, data, refused).1 == body.take(at + 1));
}

/// A read that is answered samples every byte, acknowledges all but the last, and
/// succeeds.
pub proof fn law_answered_read_succeeds(addr: u8, len: nat, acks: Seq<bool>)
    requires
        len <= usize::MAX,
        acks.len() == len + 3,
        acks[1],
    ensures
        read_through(addr, len, acks).0 == Next::Finished(Ok(())),
        read_through(addr, len, acks).1 == read_body(addr, len).push(Block::Stop),
        forall|i: int|
            0 <= i < len ==> #[trigger] read_body(addr, len)[i + 2] == Block::ReadByte(
                i != len - 1,
            ),
{
    lemma_read_so_far(addr, len, acks.drop_last());
    assert(read_body(addr, len).take((len + 2) as int) =~= read_body(addr, len));
}

/// A read that is not answered sends nothing after the address but a stop
/// condition, and fails.
pub proof fn law_unanswered_read_stops(addr: u8, len: nat, acks: Seq<bool>)
    requires
        len <= usize::MAX,
        acks.len() == 3,
        !acks[1],
    ensures
        read_through(addr, len, acks).0 == Next::Finished(Err(Nack::AddressRead)),
        read_through(addr, len, acks).1 == seq![
            Block::Start,
            Block::WriteByte(read_address(addr)),
            Block::Stop,
        ],
{
    let two = acks.drop_last();
    let one = two.drop_last();
    lemma_read_so_far(addr, len, one);
    let body = read_body(addr, len);
    assert(body.take(1) =~= seq![Block::Start]);
    assert(read_through(addr, len, two).0 == after_read(Stage::Address, len, false));
    assert(read_through(addr, len, two).1 == seq![
        Block::Start,
        Block::WriteByte(read_address(addr)),
    ]);
}

/// Whatever happens on the bus, a transaction that is over ended with a stop
/// condition.
pub proof fn law_finished_means_stopped(addr: u8, data: Seq<u8>, acks: Seq<bool>)
    ensures
        ({
            let (next, blocks) = write_through(addr, data, acks);
            next is Finished ==> blocks.len() > 0 && blocks.last() == Block::Stop
        }),
        ({
            let (next, blocks) = read_through(addr, data.len(), acks);
            next is Finished ==> blocks.len() > 0 && blocks.last() == Block::Stop
        }),
    decreases acks.len(),
{
    if acks.len() > 0 {
        law_finished_means_stopped(addr, data, acks.drop_last());
    }
}

/// Freeing a stuck bus never gives more than nine clock pulses, whatever the lines
/// read, and a bus on which both lines are high gets no more of them.
pub proof fn law_recovery_is_bounded(stage: RecoverStage, sda: bool, scl: bool)
    requires
        stage matches RecoverStage::Check(n) ==> n < 9,
        stage matches RecoverStage::Pulse(n) ==> n < 9,
    ensures
        after_recover(stage, sda, scl) matches RecoverNext::Go(RecoverStage::Check(n)) ==> n < 9,
        after_recover(stage, sda, scl) matches RecoverNext::Go(RecoverStage::Pulse(n)) ==> n < 9
            && !(sda && scl),
{
}

/// Lines that were let go of are both released, so what they then read is what
/// other chips do to them.
pub proof fn law_released_lines_are_free(lines: Lines)
    ensures
        lines.driven(release_ops()).sda,
        lines.driven(release_ops()).scl,
{
    let o2 = release_ops().drop_last();
    let o1 = o2.drop_last();
    assert(lines.driven(o1).sda);
    assert(lines.driven(o2).sda && lines.driven(o2).scl);
}

/// A start condition: the data line falls while the clock is high, half a period after
/// both were let go of, and the clock falls half a period later.
pub proof fn law_start_condition(lines: Lines)
    ensures
        start_ops().len() == 6,
        start_ops()[2] == LineOp::Half && start_ops()[4] == LineOp::Half,
        ({
            let idle = lines.driven(start_ops().take(3));
            let begun = lines.driven(start_ops().take(4));
            &&& idle.sda && idle.scl
            &&& !begun.sda && begun.scl
            &&& !lines.driven(start_ops()).sda && !lines.driven(start_ops()).scl
        }),
{
    let ops = start_ops();
    assert(ops.drop_last() =~= ops.take(5));
    assert(ops.take(5).drop_last() =~= ops.take(4));
    assert(ops.take(4).drop_last() =~= ops.take(3));
    assert(ops.take(3).drop_last() =~= ops.take(2));
    assert(ops.take(2).drop_last() =~= ops.take(1));
    assert(lines.driven(ops.take(1)).sda);
    assert(lines.driven(ops.take(2)).sda && lines.driven(ops.take(2)).scl);
    assert(lines.driven(ops.take(3)) == lines.driven(ops.take(2)));
    assert(lines.driven(ops.take(4)) == lines.driven(ops.take(3)).after(LineOp::SdaLow));
    assert(lines.driven(ops.take(5)) == lines.driven(ops.take(4)));
}

/// A stop condition: the data line rises while the clock is high, each change half a
/// period after the one before, with half a period at the end.
pub proof fn law_stop_condition(lines: Lines)
    ensures
        stop_ops().len() == 6,
        stop_ops()[1] == LineOp::Half && stop_ops()[3] == LineOp::Half && stop_ops()[5]
            == LineOp::Half,
        ({
            let low = lines.driven(stop_ops().take(1));
            let risen = lines.driven(stop_ops().take(3));
            let ended = lines.driven(stop_ops().take(5));
            &&& !low.sda
            &&& !risen.sda && risen.scl
            &&& ended.sda && ended.scl
            &&& lines.driven(stop_ops()) == ended
        }),
{
    let ops = stop_ops();
    assert(ops.drop_last() =~= ops.take(5));
    assert(ops.take(5).drop_last() =~= ops.take(4));
    assert(ops.take(4).drop_last() =~= ops.take(3));
    assert(ops.take(3).drop_last() =~= ops.take(2));
    assert(ops.take(2).drop_last() =~= ops.take(1));
    assert(ops.take(1).drop_last() =~= ops.take(0));
    assert(!lines.driven(ops.take(1)).sda);
    assert(lines.driven(ops.take(2)) == lines.driven(ops.take(1)));
    assert(lines.driven(ops.take(3)) == lines.driven(ops.take(2)).after(LineOp::SclRelease));
    assert(lines.driven(ops.take(4)) == lines.driven(ops.take(3)));
    assert(lines.driven(ops.take(5)) == lines.driven(ops.take(4)).after(LineOp::SdaRelease));
}

/// What is done for bit `j` of a byte that is sent, counted from the top bit: the line
/// is let go of for a one and held for a zero, and half a period passes before the
/// clock rises and before it falls. Behind the eight bits the receiver's answer is
/// sampled while the clock is high.
pub proof fn law_steps_of_a_sent_byte(byte: u8, j: int)
    requires
        0 <= j < 8,
    ensures
        write_byte_ops(byte).len() == 46,
        write_byte_ops(byte)[5 * j] == (if (byte >> ((7 - j) as u8)) & 1 == 1 {
            LineOp::SdaRelease
        } else {
            LineOp::SdaLow
        }),
        write_byte_ops(byte)[5 * j + 1] == LineOp::Half,
        write_byte_ops(byte)[5 * j + 2] == LineOp::SclRelease,
        write_byte_ops(byte)[5 * j + 3] == LineOp::Half,
        write_byte_ops(byte)[5 * j + 4] == LineOp::SclLow,
        write_byte_ops(byte).skip(40) == seq![
            LineOp::SdaRelease,
            LineOp::Half,
            LineOp::SclRelease,
            LineOp::Half,
            LineOp::SampleSda,
            LineOp::SclLow,
        ],
{
    let bits = byte_bits(byte);
    let k = 5 * j;
    lemma_write_bits_at(bits, k);
    lemma_write_bits_at(bits, k + 1);
    lemma_write_bits_at(bits, k + 2);
    lemma_write_bits_at(bits, k + 3);
    lemma_write_bits_at(bits, k + 4);
    assert((k + 1) / 5 == j && (k + 2) / 5 == j && (k + 3) / 5 == j && (k + 4) / 5 == j);
    assert(write_byte_ops(byte).skip(40) =~= read_bit_ops());
}

/// What is done for bit `j` of a byte that is read: the line is let go of, and it is
/// sampled half a period after the clock rose. Behind the eight bits the line is held
/// low to acknowledge the byte, and let go of not to.
pub proof fn law_steps_of_a_read_byte(ack: bool, j: int)
    requires
        0 <= j < 8,
    ensures
        read_byte_ops(ack).len() == 53,
        read_byte_ops(ack)[6 * j] == LineOp::SdaRelease,
        read_byte_ops(ack)[6 * j + 1] == LineOp::Half,
        read_byte_ops(ack)[6 * j + 2] == LineOp::SclRelease,
        read_byte_ops(ack)[6 * j + 3] == LineOp::Half,
        read_byte_ops(ack)[6 * j + 4] == LineOp::SampleSda,
        read_byte_ops(ack)[6 * j + 5] == LineOp::SclLow,
        read_byte_ops(ack).skip(48) == seq![
            if ack {
                LineOp::SdaLow
            } else {
                LineOp::SdaRelease
            },
            LineOp::Half,
            LineOp::SclRelease,
            LineOp::Half,
            LineOp::SclLow,
        ],
{
    let k = 6 * j;
    lemma_read_bits_at(8, k);
    lemma_read_bits_at(8, k + 1);
    lemma_read_bits_at(8, k + 2);
    lemma_read_bits_at(8, k + 3);
    lemma_read_bits_at(8, k + 4);
    lemma_read_bits_at(8, k + 5);
    assert(k % 6 == 0 && (k + 1) % 6 == 1 && (k + 2) % 6 == 2 && (k + 3) % 6 == 3 && (k + 4) % 6
        == 4 && (k + 5) % 6 == 5);
    assert(read_byte_ops(ack).skip(48) =~= write_bit_ops(!ack));
}

/// The address goes out in the upper seven bits of the first byte; the lowest bit is
/// clear for writing and set for reading.
pub proof fn law_address_byte(addr: u8)
    ensures
        addr < 128 ==> write_address(addr) == 2 * addr,
        addr < 128 ==> read_address(addr) == 2 * addr + 1,
        addr >= 128 ==> write_address(addr) == 2 * addr - 256,
        addr >= 128 ==> read_address(addr) == 2 * addr - 255,
{
}

/// The operations of a block are handed out one by one from the first to the last, and
/// none after that.
pub proof fn law_operations_in_order(ops: Seq<LineOp>, k: int)
    ensures
        0 <= k < ops.len() ==> op_at(ops, k) == Some(ops[k]),
        k >= ops.len() ==> op_at(ops, k) == None::<LineOp>,
{
}

/// A write that has been acknowledged so far is at the byte after the last one that
/// was sent, and sends the bytes of the data in order; one that is over has sent them
/// all.
pub proof fn law_write_sends_the_data(addr: u8, data: Seq<u8>, acks: Seq<bool>, i: int)
    requires
        addr < 128,
        data.len() <= usize::MAX,
        acks.len() == data.len() + 3,
        forall|j: int| 1 <= j < data.len() + 2 ==> acks[j],
        0 <= i < data.len(),
    ensures
        ({
            let blocks = write_through(addr, data, acks).1;
            &&& blocks.len() == data.len() + 3
            &&& blocks[0] == Block::Start
            &&& blocks[1] matches Block::WriteByte(first) && first == 2 * addr
            &&& blocks[2 + i] == Block::WriteByte(data[i])
            &&& blocks.last() == Block::Stop
        }),
{
    law_acknowledged_write_succeeds(addr, data, acks);
}

/// A read asks for as many bytes as there is room for, acknowledging byte `i` exactly
/// when another one is to follow.
pub proof fn law_read_asks_for_every_byte(addr: u8, len: nat, acks: Seq<bool>, i: int)
    requires
        addr < 128,
        len <= usize::MAX,
        acks.len() == len + 3,
        acks[1],
        0 <= i < len,
    ensures
        ({
            let blocks = read_through(addr, len, acks).1;
            &&& blocks.len() == len + 3
            &&& blocks[0] == Block::Start
            &&& blocks[1] matches Block::WriteByte(first) && first == 2 * addr + 1
            &&& blocks[2 + i] == Block::ReadByte(i + 1 < len)
            &&& blocks.last() == Block::Stop
        }),
{
    law_answered_read_succeeds(addr, len, acks);
}

/// A probe sends the address for writing and nothing else, and its answer is whether
/// that byte was acknowledged.
pub proof fn law_probe_is_the_address_alone(addr: u8, acked: bool, other: bool)
    requires
        addr < 128,
    ensures
        probe_block(addr, ProbeStage::Start) == Block::Start,
        probe_block(addr, ProbeStage::Address) matches Block::WriteByte(byte) && byte == 2 * addr,
        probe_block(addr, ProbeStage::Stop(acked)) == Block::Stop,
        after_probe(ProbeStage::Start, other) == ProbeNext::Go(ProbeStage::Address),
        after_probe(ProbeStage::Address, acked) == ProbeNext::Go(ProbeStage::Stop(acked)),
        after_probe(ProbeStage::Stop(acked), other) == ProbeNext::Finished(acked),
{
}

/// The parts of freeing a bus: a pulse is the clock held low for half a period and let
/// go of for another, and between two of them the lines are looked at.
pub proof fn law_recovery_steps(n: u32, sda: bool, scl: bool)
    requires
        n < 9,
    ensures
        recover_ops(RecoverStage::Pulse(n)) == seq![
            LineOp::SclLow,
            LineOp::Half,
            LineOp::SclRelease,
            LineOp::Half,
        ],
        recover_ops(RecoverStage::Release) == seq![
            LineOp::SdaRelease,
            LineOp::SclRelease,
            LineOp::Half,
        ],
        recover_ops(RecoverStage::Check(n)) == Seq::<LineOp>::empty(),
        recover_ops(RecoverStage::Stop) == stop_ops(),
        after_recover(RecoverStage::Release, sda, scl) == RecoverNext::Go(RecoverStage::Check(0)),
        after_recover(RecoverStage::Check(n), true, true) == RecoverNext::Go(RecoverStage::Stop),
        !(sda && scl) ==> after_recover(RecoverStage::Check(n), sda, scl) == RecoverNext::Go(
            RecoverStage::Pulse(n),
        ),
        n < 8 ==> after_recover(RecoverStage::Pulse(n), sda, scl) == RecoverNext::Go(
            RecoverStage::Check((n + 1) as u32),
        ),
        n == 8 ==> after_recover(RecoverStage::Pulse(n), sda, scl) == RecoverNext::Go(
            RecoverStage::Stop,
        ),
        after_recover(RecoverStage::Stop, sda, scl) == RecoverNext::Finished,
{
}

/// What the two levels read like behind the label, high and low told apart.
pub proof fn law_levels_read_back(label: Seq<char>, sda: bool, scl: bool)
    ensures
        ({
            let text = levels_text(label, sda, scl);
            let n = label.len() as int;
            let sda_len: int = if sda {
                4
            } else {
                3
            };
            &&& text.take(n) == label
            &&& text.subrange(n, n + 6) == seq![':', ' ', 'S', 'D', 'A', '=']
            &&& text[n + 6] == (if sda {
                'H'
            } else {
                'L'
            })
            &&& text.subrange(n + 6 + sda_len, n + 11 + sda_len) == seq![' ', 'S', 'C', 'L', '=']
            &&& text[n + 11 + sda_len] == (if scl {
                'H'
            } else {
                'L'
            })
        }),
{
    reveal_strlit(": SDA=");
    reveal_strlit(" SCL=");
    reveal_strlit("HIGH");
    reveal_strlit("LOW");
    let text = levels_text(label, sda, scl);
    let n = label.len() as int;
    let sda_len: int = if sda {
        4
    } else {
        3
    };
    assert(text.take(n) =~= label);
    assert(text.subrange(n, n + 6) =~= seq![':', ' ', 'S', 'D', 'A', '=']);
    assert(text.subrange(n + 6 + sda_len, n + 11 + sda_len) =~= seq![' ', 'S', 'C', 'L', '=']);
}

/// What each block does to the lines. A start lets SDA fall while SCL is high, a stop lets
/// it rise; a byte that is sent leaves its last turn to the other side, and one that is
/// read ends with an acknowledgement, for which SDA is pulled low, or without one.
pub proof fn law_blocks_on_the_lines(byte: u8, ack: bool, j: int)
    requires
        0 <= j < 8,
    ensures
        block_ops(Block::Start) == seq![
            LineOp::SdaRelease,
            LineOp::SclRelease,
            LineOp::Half,
            LineOp::SdaLow,
            LineOp::Half,
            LineOp::SclLow,
        ],
        block_ops(Block::Stop) == seq![
            LineOp::SdaLow,
            LineOp::Half,
            LineOp::SclRelease,
            LineOp::Half,
            LineOp::SdaRelease,
            LineOp::Half,
        ],
        block_ops(Block::WriteByte(byte)).len() == 46,
        block_ops(Block::WriteByte(byte))[44] == LineOp::SampleSda,
        block_ops(Block::WriteByte(byte))[5 * j] == (if (byte >> ((7 - j) as u8)) & 1 == 1 {
            LineOp::SdaRelease
        } else {
            LineOp::SdaLow
        }),
        block_ops(Block::ReadByte(ack)).len() == 53,
        block_ops(Block::ReadByte(ack))[6 * j + 4] == LineOp::SampleSda,
        block_ops(Block::ReadByte(ack))[48] == (if ack {
            LineOp::SdaLow
        } else {
            LineOp::SdaRelease
        }),
{
    law_steps_of_a_sent_byte(byte, j);
    law_steps_of_a_read_byte(ack, j);
    assert(write_byte_ops(byte)[44] == write_byte_ops(byte).skip(40)[4]);
    assert(read_byte_ops(ack)[48] == read_byte_ops(ack).skip(48)[0]);
}

/// How a missing acknowledgement is shown tells which byte it was: the address of a write,
/// a byte of the data, or the address of a read.
pub proof fn law_nack_texts()
    ensures
        nack_text(Nack::AddressWrite) == seq!['a', 'd', 'd', 'r', '-', 'w', ' ', 'N', 'A', 'C', 'K'],
        nack_text(Nack::Data) == seq!['d', 'a', 't', 'a', ' ', 'N', 'A', 'C', 'K'],
        nack_text(Nack::AddressRead) == seq!['a', 'd', 'd', 'r', '-', 'r', ' ', 'N', 'A', 'C', 'K'],
{
    reveal_strlit("addr-w NACK");
    reveal_strlit("data NACK");
    reveal_strlit("addr-r NACK");
    assert(nack_text(Nack::AddressWrite) =~= seq![
        'a',
        'd',
        'd',
        'r',
        '-',
        'w',
        ' ',
        'N',
        'A',
        'C',
        'K',
    ]);
    assert(nack_text(Nack::Data) =~= seq!['d', 'a', 't', 'a', ' ', 'N', 'A', 'C', 'K']);
    assert(nack_text(Nack::AddressRead) =~= seq![
        'a',
        'd',
        'd',
        'r',
        '-',
        'r',
        ' ',
        'N',
        'A',
        'C',
        'K',
    ]);
}

} // verus!
