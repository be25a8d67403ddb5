use homelab::bitbang_i2c::{
    BitbangI2c, Block, LineOp, Nack, Next, ProbeNext, ProbeStage, RecoverNext, RecoverStage, Stage,
};
use homelab::bitbang_spi::{BitBangSpi, Edge};

/// What the panel samples on the rising edges of the clock.
fn sampled(edges: &[Edge]) -> Vec<bool> {
    let mut sck = false;
    let mut mosi = false;
    let mut bits = Vec::new();
    for edge in edges {
        match edge {
            Edge::SckLow => sck = false,
            Edge::SckHigh => {
                if !sck {
                    bits.push(mosi);
                }
                sck = true;
            }
            Edge::MosiLow | Edge::MosiHigh => {
                assert!(!sck);
                mosi = *edge == Edge::MosiHigh;
            }
        }
    }
    assert!(!sck);
    bits
}

fn bytes(bits: &[bool]) -> Vec<u8> {
    bits.chunks(8).map(|c| c.iter().fold(0u8, |b, bit| (b << 1) | *bit as u8)).collect()
}

fn write_edges(words: &[u8]) -> Vec<Edge> {
    let (spi, idle) = BitBangSpi::new((), ());
    assert_eq!(idle, Edge::SckLow);
    let mut edges = Vec::new();
    while let Some(edge) = spi.write(words, edges.len()) {
        edges.push(edge);
    }
    edges
}

#[test]
fn panel_samples_the_bytes_written() {
    let words = [0x2C, 0xA5, 0x00, 0xFF, 0x01, 0x80];
    let edges = write_edges(&words);
    assert_eq!(edges.len(), 6 * 24 + 1);
    assert_eq!(bytes(&sampled(&edges)), words);
}

#[test]
fn wave_of_one_byte() {
    let edges = write_edges(&[0x80]);
    assert_eq!(
        edges[..6],
        [
            Edge::SckLow,
            Edge::MosiHigh,
            Edge::SckHigh,
            Edge::SckLow,
            Edge::MosiLow,
            Edge::SckHigh
        ]
    );
    assert_eq!(edges[24], Edge::SckLow);
    assert_eq!(write_edges(&[]), [Edge::SckLow]);
}

#[test]
fn nothing_is_driven_past_the_end() {
    let (spi, _) = BitBangSpi::new(1u8, 2u8);
    assert_eq!((spi.sck, spi.mosi), (1, 2));
    assert_eq!(spi.write(&[0xFF], 25), None);
    assert_eq!(spi.write(&[0xFF], 26), None);
    assert_eq!(spi.write(&[0xFF], usize::MAX), None);
}

#[test]
fn reads_are_undriven() {
    let (spi, _) = BitBangSpi::new((), ());
    let mut words = [1, 2, 3];
    spi.read(&mut words);
    assert_eq!(words, [0xFF; 3]);
}

#[test]
fn transfer_writes_then_fills() {
    let (spi, _) = BitBangSpi::new((), ());
    let mut read = [7u8; 4];
    let mut edges = Vec::new();
    while let Some(edge) = spi.transfer(&mut read, &[0x3A], edges.len()) {
        assert_eq!(read, [7; 4]);
        edges.push(edge);
    }
    assert_eq!(read, [0xFF; 4]);
    assert_eq!(edges, write_edges(&[0x3A]));
}

#[test]
fn transfer_in_place_writes_word_by_word() {
    let (spi, _) = BitBangSpi::new((), ());
    let mut words = [0x12u8, 0xED];
    let mut edges = Vec::new();
    while let Some(edge) = spi.transfer_in_place(&mut words, edges.len()) {
        assert_eq!(words, [0x12, 0xED]);
        edges.push(edge);
    }
    assert_eq!(words, [0xFF; 2]);
    assert_eq!(edges.len(), 50);
    assert_eq!(bytes(&sampled(&edges)), [0x12, 0xED]);
}

fn bus() -> BitbangI2c<(), ()> {
    BitbangI2c::new((), ())
}

fn block_ops(block: Block) -> Vec<LineOp> {
    let i2c = bus();
    let mut ops = Vec::new();
    while let Some(op) = i2c.block_op(block, ops.len()) {
        ops.push(op);
    }
    ops
}

/// The data line at each rise of the clock.
fn clocked(ops: &[LineOp]) -> Vec<bool> {
    let mut sda = false;
    let mut scl = false;
    let mut bits = Vec::new();
    for op in ops {
        match op {
            LineOp::SdaRelease => {
                assert!(!scl || sda);
                sda = true;
            }
            LineOp::SdaLow => {
                assert!(!scl || !sda);
                sda = false;
            }
            LineOp::SclRelease => {
                if !scl {
                    bits.push(sda);
                }
                scl = true;
            }
            LineOp::SclLow => scl = false,
            LineOp::Half => {}
            LineOp::SampleSda => assert!(scl && sda),
        }
    }
    assert!(!scl);
    bits
}

#[test]
fn start_and_stop_conditions() {
    let i2c = bus();
    assert_eq!(
        i2c.start(),
        [
            LineOp::SdaRelease,
            LineOp::SclRelease,
            LineOp::Half,
            LineOp::SdaLow,
            LineOp::Half,
            LineOp::SclLow
        ]
    );
    assert_eq!(
        i2c.stop(),
        [
            LineOp::SdaLow,
            LineOp::Half,
            LineOp::SclRelease,
            LineOp::Half,
            LineOp::SdaRelease,
            LineOp::Half
        ]
    );
    assert_eq!(block_ops(Block::Start), i2c.start());
    assert_eq!(block_ops(Block::Stop), i2c.stop());
}

#[test]
fn single_bits() {
    let i2c = bus();
    assert_eq!(i2c.write_bit(true)[0], LineOp::SdaRelease);
    assert_eq!(i2c.write_bit(false)[0], LineOp::SdaLow);
    assert_eq!(i2c.read_bit()[4], LineOp::SampleSda);
}

#[test]
fn written_byte_goes_out_top_bit_first() {
    for byte in [0xC4u8, 0x00, 0xFF, 0x81] {
        let ops = block_ops(Block::WriteByte(byte));
        assert_eq!(ops.len(), 46);
        let bits = clocked(&ops);
        assert_eq!(bytes(&bits[..8]), [byte]);
        assert!(bits[8]);
        assert_eq!(ops.iter().filter(|op| **op == LineOp::SampleSda).count(), 1);
        assert_eq!(bus().write_byte(byte, 46), None);
    }
}

#[test]
fn read_byte_leaves_the_line_and_answers() {
    for ack in [true, false] {
        let ops = block_ops(Block::ReadByte(ack));
        assert_eq!(ops.len(), 53);
        let bits = clocked(&ops);
        assert!(bits[..8].iter().all(|b| *b));
        assert_eq!(bits[8], !ack);
        assert_eq!(ops.iter().filter(|op| **op == LineOp::SampleSda).count(), 8);
        assert_eq!(bus().read_byte(ack, 53), None);
    }
}

#[test]
fn samples_spell_a_byte() {
    let i2c = bus();
    let bits = [true, false, true, false, false, true, false, true];
    assert_eq!(i2c.byte_of(&bits), 0xA5);
    assert_eq!(i2c.byte_of(&[true; 8]), 0xFF);
    assert_eq!(i2c.byte_of(&[false; 8]), 0x00);
    assert!(i2c.acked(false));
    assert!(!i2c.acked(true));
}

fn write(addr: u8, data: &[u8], refused: Option<usize>) -> (Vec<Block>, Result<(), Nack>) {
    let i2c = bus();
    let mut stage = Stage::Start;
    let mut blocks = Vec::new();
    loop {
        let acked = refused != Some(blocks.len());
        blocks.push(i2c.write_block(addr, data, stage));
        match i2c.write(data, stage, acked) {
            Next::Go(next) => stage = next,
            Next::Finished(result) => return (blocks, result),
        }
    }
}

#[test]
fn acknowledged_write() {
    let (blocks, result) = write(0x62, &[0xE4, 0xB8], None);
    assert_eq!(result, Ok(()));
    assert_eq!(
        blocks,
        [
            Block::Start,
            Block::WriteByte(0xC4),
            Block::WriteByte(0xE4),
            Block::WriteByte(0xB8),
            Block::Stop
        ]
    );
    assert_eq!(write(0x62, &[], None).0.len(), 3);
}

#[test]
fn refused_write_stops_at_once() {
    let (blocks, result) = write(0x62, &[0xE4, 0xB8], Some(1));
    assert_eq!(result, Err(Nack::AddressWrite));
    assert_eq!(blocks, [Block::Start, Block::WriteByte(0xC4), Block::Stop]);
    let (blocks, result) = write(0x62, &[0xE4, 0xB8], Some(2));
    assert_eq!(result, Err(Nack::Data));
    assert_eq!(blocks.len(), 4);
    let (blocks, result) = write(0x62, &[0xE4, 0xB8], Some(3));
    assert_eq!(result, Err(Nack::Data));
    assert_eq!(blocks.len(), 5);
    assert_eq!(blocks[4], Block::Stop);
}

fn read(addr: u8, buf: &mut [u8], answered: bool) -> (Vec<Block>, Result<(), Nack>) {
    let i2c = bus();
    let mut stage = Stage::Start;
    let mut blocks = Vec::new();
    let mut sent = 0x10u8;
    loop {
        blocks.push(i2c.read_block(addr, buf.len(), stage));
        sent += 1;
        match i2c.read(buf, stage, answered, sent) {
            Next::Go(next) => stage = next,
            Next::Finished(result) => return (blocks, result),
        }
    }
}

#[test]
fn read_acknowledges_all_but_the_last_byte() {
    let mut buf = [0u8; 3];
    let (blocks, result) = read(0x62, &mut buf, true);
    assert_eq!(result, Ok(()));
    assert_eq!(
        blocks,
        [
            Block::Start,
            Block::WriteByte(0xC5),
            Block::ReadByte(true),
            Block::ReadByte(true),
            Block::ReadByte(false),
            Block::Stop
        ]
    );
    assert_eq!(buf, [0x13, 0x14, 0x15]);
    assert_eq!(read(0x62, &mut [], true).0.len(), 3);
}

#[test]
fn unanswered_read_leaves_the_buffer() {
    let mut buf = [9u8; 3];
    let (blocks, result) = read(0x62, &mut buf, false);
    assert_eq!(result, Err(Nack::AddressRead));
    assert_eq!(blocks, [Block::Start, Block::WriteByte(0xC5), Block::Stop]);
    assert_eq!(buf, [9; 3]);
}

#[test]
fn nack_texts() {
    assert_eq!(Nack::AddressWrite.text(), "addr-w NACK");
    assert_eq!(Nack::Data.text(), "data NACK");
    assert_eq!(Nack::AddressRead.text(), "addr-r NACK");
}

#[test]
fn probe_reports_the_answer() {
    let i2c = bus();
    for answer in [true, false] {
        let mut stage = ProbeStage::Start;
        let mut blocks = Vec::new();
        let found = loop {
            blocks.push(i2c.probe_block(0x70, stage));
            match i2c.probe_write_addr(stage, answer) {
                ProbeNext::Go(next) => stage = next,
                ProbeNext::Finished(found) => break found,
            }
        };
        assert_eq!(found, answer);
        assert_eq!(blocks, [Block::Start, Block::WriteByte(0xE0), Block::Stop]);
    }
}

fn recover(free_after: u32) -> u32 {
    let i2c = bus();
    let mut stage = RecoverStage::Release;
    let mut pulses = 0;
    loop {
        let mut k = 0;
        while let Some(op) = i2c.recover_op(stage, k) {
            if op == LineOp::SclLow {
                pulses += 1;
            }
            k += 1;
        }
        let free = pulses >= free_after;
        match i2c.recover_bus(stage, free, true) {
            RecoverNext::Go(next) => stage = next,
            RecoverNext::Finished => return pulses,
        }
    }
}

#[test]
fn recovery_clocks_until_the_bus_is_free() {
    assert_eq!(recover(0), 0);
    assert_eq!(recover(1), 1);
    assert_eq!(recover(4), 4);
    assert_eq!(recover(9), 9);
    assert_eq!(recover(1000), 9);
}

#[test]
fn levels_are_named() {
    let i2c = bus();
    let mut ops = Vec::new();
    while let Some(op) = i2c.release_op(ops.len()) {
        ops.push(op);
    }
    assert_eq!(ops, [LineOp::SdaRelease, LineOp::SclRelease, LineOp::Half]);
    assert_eq!(i2c.print_levels("idle before recovery", true, false), "idle before recovery: SDA=HIGH SCL=LOW");
    assert_eq!(i2c.print_levels("x", false, true), "x: SDA=LOW SCL=HIGH");
}
