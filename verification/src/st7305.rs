//! ST7305 reflective-LCD driver for a 400x300 landscape panel.
//!
//! The driver decides what happens on the wires and in what order: chip select,
//! data/command, reset, the bytes and the waits. Its owner performs one
//! [`Action`] after the other and reports whether it worked; the driver picks
//! the next one.
//!
//! Despite looking like e-paper the panel is an LCD, so there is no partial
//! update: every flush ships the whole 15 000-byte frame.

use vstd::prelude::*;

use crate::frame::{BinaryColor, Frame, HEIGHT, WIDTH};

verus! {

use crate::frame::paint_each;

// ST7305 command set, as used by the power-on sequence.
pub const SLEEP_OUT: u8 = 0x11;

pub const INVERSION_ON: u8 = 0x21;

pub const DISPLAY_ON: u8 = 0x29;

pub const COLUMN_ADDRESS_SET: u8 = 0x2A;

pub const ROW_ADDRESS_SET: u8 = 0x2B;

pub const MEMORY_WRITE: u8 = 0x2C;

pub const TEARING_EFFECT_ON: u8 = 0x35;

pub const MEMORY_DATA_ACCESS: u8 = 0x36;

pub const HIGH_POWER_MODE: u8 = 0x38;

pub const PIXEL_FORMAT: u8 = 0x3A;

pub const SOURCE_TIMING: u8 = 0x62;

pub const DUTY_CYCLE: u8 = 0xB0;

pub const FRAME_RATE: u8 = 0xB2;

pub const UPDATE_PERIOD_HPM: u8 = 0xB3;

pub const UPDATE_PERIOD_LPM: u8 = 0xB4;

pub const GATE_EQ: u8 = 0xB7;

pub const SOURCE_EQ: u8 = 0xB8;

pub const GAMMA_MODE: u8 = 0xB9;

pub const GATE_VOLTAGE: u8 = 0xC0;

pub const VSHP: u8 = 0xC1;

pub const VSLP: u8 = 0xC2;

pub const VSHN: u8 = 0xC4;

pub const VSLN: u8 = 0xC5;

pub const OSC_ENABLE: u8 = 0xC9;

pub const AUTO_POWER: u8 = 0xD0;

pub const BOOSTER_ENABLE: u8 = 0xD1;

pub const NVM_LOAD: u8 = 0xD6;

pub const VCOM: u8 = 0xD8;

// The window that is written into: 25 column units x 200 page rows, which is
// exactly the frame.
pub const COL_START: u8 = 0x12;

pub const COL_END: u8 = 0x2A;

pub const ROW_START: u8 = 0x00;

pub const ROW_END: u8 = 0xC7;

/// Errors the driver can surface. Bus and pin failures are collapsed because
/// neither is recoverable: both mean that the panel is not wired the way the
/// board says it is.
#[derive(Clone, Copy, Debug, PartialEq, Eq, Structural)]
pub enum Error {
    /// The SPI bus rejected a transfer.
    Spi,
    /// A control line (DC, CS or RST) could not be driven.
    Gpio,
}

/// One thing to do on the wires.
#[derive(Clone, Copy, Debug, PartialEq, Eq, Structural)]
pub enum Action {
    /// Assert chip select.
    CsLow,
    /// Release chip select.
    CsHigh,
    /// Command phase.
    DcLow,
    /// Data phase.
    DcHigh,
    /// Assert reset.
    RstLow,
    /// Release reset.
    RstHigh,
    /// Wait. This cannot fail.
    DelayMs(u32),
    /// Send one byte.
    SendByte(u8),
    /// Send the whole frame in one go.
    SendFrame,
    /// Blank the frame. The driver does this itself and never asks for it.
    Blank,
}

/// What the driver wants next.
#[derive(Clone, Copy, Debug, PartialEq, Eq)]
pub enum Step {
    /// Perform this and report whether it worked.
    Do(Action),
    /// The operation is over.
    Done(Result<(), Error>),
}

/// Whether an action moves bytes.
pub open spec fn is_send(action: Action) -> bool {
    action is SendByte || action is SendFrame
}

/// Whether an action sets the data/command line.
pub open spec fn is_dc(action: Action) -> bool {
    action is DcLow || action is DcHigh
}

/// One transaction: assert CS, send at the given DC level, release CS.
pub open spec fn transaction_ops(data_phase: bool, payload: Action) -> Seq<Action> {
    seq![
        Action::CsLow,
        if data_phase {
            Action::DcHigh
        } else {
            Action::DcLow
        },
        payload,
        Action::CsHigh,
    ]
}

/// Parameter bytes, each framed in a transaction of its own.
pub open spec fn params_ops(params: Seq<u8>) -> Seq<Action>
    decreases params.len(),
{
    if params.len() == 0 {
        Seq::empty()
    } else {
        params_ops(params.drop_last()) + transaction_ops(true, Action::SendByte(params.last()))
    }
}

/// A command, then its parameters one byte per transaction.
pub open spec fn command_ops(command: u8, params: Seq<u8>) -> Seq<Action> {
    transaction_ops(false, Action::SendByte(command)) + params_ops(params)
}

/// The commands of a table, in order.
pub open spec fn table_ops(table: Seq<(u8, Seq<u8>)>) -> Seq<Action>
    decreases table.len(),
{
    if table.len() == 0 {
        Seq::empty()
    } else {
        table_ops(table.drop_last()) + command_ops(table.last().0, table.last().1)
    }
}

/// The `(command, params)` pairs of the power-on sequence. They configure the
/// charge pump, the drive voltages and the update waveform of this
/// panel, and must not be tidied.
pub open spec fn power_table() -> Seq<(u8, Seq<u8>)> {
    seq![
        (NVM_LOAD, seq![0x17u8, 0x02]),
        (BOOSTER_ENABLE, seq![0x01u8]),
        (GATE_VOLTAGE, seq![0x11u8, 0x04]),
        (VSHP, seq![0x41u8, 0x41, 0x41, 0x41]),
        (VSLP, seq![0x19u8, 0x19, 0x19, 0x19]),
        (VSHN, seq![0x41u8, 0x41, 0x41, 0x41]),
        (VSLN, seq![0x19u8, 0x19, 0x19, 0x19]),
        (VCOM, seq![0xA6u8, 0xE9]),
        (FRAME_RATE, seq![0x05u8]),
        (
            UPDATE_PERIOD_HPM,
            seq![0xE5u8, 0xF6, 0x05, 0x46, 0x77, 0x77, 0x77, 0x77, 0x76, 0x45],
        ),
        (UPDATE_PERIOD_LPM, seq![0x05u8, 0x46, 0x77, 0x77, 0x77, 0x77, 0x76, 0x45]),
        (SOURCE_TIMING, seq![0x32u8, 0x03, 0x1F]),
        (GATE_EQ, seq![0x13u8]),
        (DUTY_CYCLE, seq![0x64u8]),
    ]
}

/// The `(command, params)` pairs that follow the sleep-out delay.
pub open spec fn wake_table() -> Seq<(u8, Seq<u8>)> {
    seq![
        (OSC_ENABLE, seq![0x00u8]),
        (MEMORY_DATA_ACCESS, seq![0x48u8]),
        (PIXEL_FORMAT, seq![0x11u8]),
        (GAMMA_MODE, seq![0x20u8]),
        (SOURCE_EQ, seq![0x29u8]),
        (INVERSION_ON, Seq::<u8>::empty()),
        (COLUMN_ADDRESS_SET, seq![COL_START, COL_END]),
        (ROW_ADDRESS_SET, seq![ROW_START, ROW_END]),
        (TEARING_EFFECT_ON, seq![0x00u8]),
        (AUTO_POWER, seq![0xFFu8]),
        (HIGH_POWER_MODE, Seq::<u8>::empty()),
        (DISPLAY_ON, Seq::<u8>::empty()),
    ]
}

/// Hardware reset.
pub open spec fn reset_ops() -> Seq<Action> {
    seq![
        Action::CsHigh,
        Action::RstHigh,
        Action::DelayMs(50),
        Action::RstLow,
        Action::DelayMs(20),
        Action::RstHigh,
        Action::DelayMs(50),
    ]
}

/// Shipping the whole frame. Memory-write is a transaction of its own, and the
/// frame goes out as one continuous data phase under a single CS assertion.
pub open spec fn flush_ops() -> Seq<Action> {
    command_ops(COLUMN_ADDRESS_SET, seq![COL_START, COL_END]) + command_ops(
        ROW_ADDRESS_SET,
        seq![ROW_START, ROW_END],
    ) + transaction_ops(false, Action::SendByte(MEMORY_WRITE)) + transaction_ops(
        true,
        Action::SendFrame,
    )
}

/// Hardware reset, power-on sequence, blank frame, flush. The charge pump needs
/// the wait after sleep-out before any of the voltage settings take effect.
pub open spec fn init_ops() -> Seq<Action> {
    reset_ops() + table_ops(power_table()) + command_ops(SLEEP_OUT, Seq::empty()) + seq![
        Action::DelayMs(200),
    ] + table_ops(wake_table()) + seq![Action::Blank] + flush_ops()
}

/// A list of actions under way.
pub struct Run {
    pub ops: Seq<Action>,
    /// Position of the action to perform next.
    pub pc: int,
    /// The first failure, once there is one.
    pub fault: Option<Error>,
}

/// A list of actions at its start.
pub open spec fn begin(ops: Seq<Action>) -> Run {
    Run { ops, pc: 0, fault: None }
}

/// Position after the action at `pc` worked; a blank is passed over.
pub open spec fn next_pc(ops: Seq<Action>, pc: int) -> int {
    if pc + 1 < ops.len() && ops[pc + 1] is Blank {
        pc + 2
    } else {
        pc + 1
    }
}

/// What kind of failure it is when an action fails.
pub open spec fn fault_of(action: Action) -> Option<Error> {
    if is_send(action) {
        Some(Error::Spi)
    } else if action is DelayMs {
        None
    } else {
        Some(Error::Gpio)
    }
}

impl Run {
    /// Whether nothing is left to do.
    pub open spec fn done(self) -> bool {
        self.pc >= self.ops.len()
    }

    /// The result of a run that is done.
    pub open spec fn result(self) -> Result<(), Error> {
        match self.fault {
            Some(error) => Err(error),
            None => Ok(()),
        }
    }

    /// The run after the outcome of its current action was reported. A failure
    /// inside a transaction leads to that transaction's release of CS and ends
    /// there; any other failure ends the run at once.
    pub open spec fn after(self, ok: bool) -> Run {
        let action = self.ops[self.pc];
        if self.done() {
            self
        } else if self.fault is Some {
            Run { pc: self.ops.len() as int, ..self }
        } else if ok || fault_of(action) is None {
            Run { pc: next_pc(self.ops, self.pc), ..self }
        } else if is_dc(action) {
            Run { pc: self.pc + 2, fault: fault_of(action), ..self }
        } else if is_send(action) {
            Run { pc: self.pc + 1, fault: fault_of(action), ..self }
        } else {
            Run { pc: self.ops.len() as int, fault: fault_of(action), ..self }
        }
    }

    /// Whether that outcome also blanks the frame.
    pub open spec fn blanks(self, ok: bool) -> bool {
        &&& !self.done()
        &&& self.fault is None
        &&& ok || fault_of(self.ops[self.pc]) is None
        &&& self.pc + 1 < self.ops.len()
        &&& self.ops[self.pc + 1] is Blank
    }

    /// The list is made of whole transactions, the position is one that the
    /// owner can be asked to perform, and after a failure only the release of
    /// CS is left.
    pub open spec fn wf(self) -> bool {
        &&& framed(self.ops)
        &&& 0 <= self.pc <= self.ops.len()
        &&& self.pc < self.ops.len() ==> !(self.ops[self.pc] is Blank)
        &&& self.fault is Some && self.pc < self.ops.len() ==> self.ops[self.pc] is CsHigh
            && self.pc >= 1 && is_send(self.ops[self.pc - 1])
    }
}

/// Whether a transaction starts at `i`.
pub open spec fn block_at(ops: Seq<Action>, i: int) -> bool {
    &&& 0 <= i
    &&& i + 3 < ops.len()
    &&& ops[i] is CsLow
    &&& is_dc(ops[i + 1])
    &&& is_send(ops[i + 2])
    &&& ops[i + 3] is CsHigh
}

/// The action at `i` stands in its place: CS, DC and bytes within a whole
/// transaction, a blank between two other actions.
pub open spec fn in_place(ops: Seq<Action>, i: int) -> bool {
    &&& ops[i] is CsLow ==> block_at(ops, i)
    &&& is_dc(ops[i]) ==> block_at(ops, i - 1)
    &&& is_send(ops[i]) ==> block_at(ops, i - 2)
    &&& ops[i] is Blank ==> 0 < i && i + 1 < ops.len() && !(ops[i - 1] is Blank) && !(ops[i
        + 1] is Blank)
}

/// CS, DC and bytes come in whole transactions only, and a blank stands between
/// two other actions.
pub open spec fn framed(ops: Seq<Action>) -> bool {
    forall|i: int| 0 <= i < ops.len() ==> #[trigger] in_place(ops, i)
}

/// Whole transactions followed by whole transactions.
proof fn lemma_framed_concat(a: Seq<Action>, b: Seq<Action>)
    requires
        framed(a),
        framed(b),
    ensures
        framed(a + b),
{
    let ops = a + b;
    assert forall|i: int| 0 <= i < ops.len() implies #[trigger] in_place(ops, i) by {
        if i < a.len() {
            lemma_in_place_left(a, b, i);
        } else {
            lemma_in_place_right(a, b, i - a.len());
        }
    }
}

proof fn lemma_in_place_left(a: Seq<Action>, b: Seq<Action>, i: int)
    requires
        framed(a),
        0 <= i < a.len(),
    ensures
        in_place(a + b, i),
{
    assert(in_place(a, i));
    assert((a + b)[i] == a[i]);
    if a[i] is CsLow {
        lemma_block_left(a, b, i);
    }
    if is_dc(a[i]) {
        lemma_block_left(a, b, i - 1);
    }
    if is_send(a[i]) {
        lemma_block_left(a, b, i - 2);
    }
    if a[i] is Blank {
        assert((a + b)[i - 1] == a[i - 1] && (a + b)[i + 1] == a[i + 1]);
    }
}

proof fn lemma_in_place_right(a: Seq<Action>, b: Seq<Action>, j: int)
    requires
        framed(b),
        0 <= j < b.len(),
    ensures
        in_place(a + b, a.len() + j),
{
    let i = a.len() + j;
    assert(in_place(b, j));
    assert((a + b)[i] == b[j]);
    if b[j] is CsLow {
        lemma_block_right(a, b, j);
    }
    if is_dc(b[j]) {
        lemma_block_right(a, b, j - 1);
    }
    if is_send(b[j]) {
        lemma_block_right(a, b, j - 2);
    }
    if b[j] is Blank {
        assert((a + b)[i - 1] == b[j - 1] && (a + b)[i + 1] == b[j + 1]);
    }
}

proof fn lemma_block_left(a: Seq<Action>, b: Seq<Action>, i: int)
    requires
        block_at(a, i),
    ensures
        block_at(a + b, i),
{
    assert((a + b)[i] == a[i]);
    assert((a + b)[i + 1] == a[i + 1]);
    assert((a + b)[i + 2] == a[i + 2]);
    assert((a + b)[i + 3] == a[i + 3]);
}

proof fn lemma_block_right(a: Seq<Action>, b: Seq<Action>, j: int)
    requires
        block_at(b, j),
    ensures
        block_at(a + b, a.len() + j),
{
    let i = a.len() + j;
    assert((a + b)[i] == b[j]);
    assert((a + b)[i + 1] == b[j + 1]);
    assert((a + b)[i + 2] == b[j + 2]);
    assert((a + b)[i + 3] == b[j + 3]);
}

/// A single transaction is whole.
proof fn lemma_framed_transaction(data_phase: bool, payload: Action)
    requires
        is_send(payload),
    ensures
        framed(transaction_ops(data_phase, payload)),
{
    let ops = transaction_ops(data_phase, payload);
    assert(block_at(ops, 0));
    assert forall|i: int| 0 <= i < ops.len() implies #[trigger] in_place(ops, i) by {}
}

proof fn lemma_framed_params(params: Seq<u8>)
    ensures
        framed(params_ops(params)),
    decreases params.len(),
{
    if params.len() > 0 {
        lemma_framed_params(params.drop_last());
        lemma_framed_transaction(true, Action::SendByte(params.last()));
        lemma_framed_concat(
            params_ops(params.drop_last()),
            transaction_ops(true, Action::SendByte(params.last())),
        );
    }
}

proof fn lemma_framed_command(command: u8, params: Seq<u8>)
    ensures
        framed(command_ops(command, params)),
{
    lemma_framed_transaction(false, Action::SendByte(command));
    lemma_framed_params(params);
    lemma_framed_concat(transaction_ops(false, Action::SendByte(command)), params_ops(params));
}

proof fn lemma_framed_table(table: Seq<(u8, Seq<u8>)>)
    ensures
        framed(table_ops(table)),
    decreases table.len(),
{
    if table.len() > 0 {
        lemma_framed_table(table.drop_last());
        lemma_framed_command(table.last().0, table.last().1);
        lemma_framed_concat(
            table_ops(table.drop_last()),
            command_ops(table.last().0, table.last().1),
        );
    }
}

proof fn lemma_framed_flush()
    ensures
        framed(flush_ops()),
        flush_ops().len() == 32,
        flush_ops()[0] is CsLow,
{
    let cols = command_ops(COLUMN_ADDRESS_SET, seq![COL_START, COL_END]);
    let rows = command_ops(ROW_ADDRESS_SET, seq![ROW_START, ROW_END]);
    let write = transaction_ops(false, Action::SendByte(MEMORY_WRITE));
    let frame = transaction_ops(true, Action::SendFrame);
    lemma_framed_command(COLUMN_ADDRESS_SET, seq![COL_START, COL_END]);
    lemma_framed_command(ROW_ADDRESS_SET, seq![ROW_START, ROW_END]);
    lemma_framed_transaction(false, Action::SendByte(MEMORY_WRITE));
    lemma_framed_transaction(true, Action::SendFrame);
    lemma_framed_concat(cols, rows);
    lemma_framed_concat(cols + rows, write);
    lemma_framed_concat(cols + rows + write, frame);
    reveal_with_fuel(params_ops, 3);
    assert(flush_ops()[0] == cols[0]);
}

/// Actions that are neither CS, DC, bytes nor blanks may stand anywhere.
proof fn lemma_framed_plain(ops: Seq<Action>)
    requires
        forall|i: int|
            0 <= i < ops.len() ==> (#[trigger] ops[i] is CsHigh || ops[i] is RstLow
                || ops[i] is RstHigh || ops[i] is DelayMs),
    ensures
        framed(ops),
{
    assert forall|i: int| 0 <= i < ops.len() implies #[trigger] in_place(ops, i) by {
        assert(ops[i] == ops[i]);
    }
}

/// A blank may stand between two framed lists.
proof fn lemma_framed_around_blank(a: Seq<Action>, b: Seq<Action>)
    requires
        framed(a),
        framed(b),
        a.len() > 0,
        b.len() > 0,
        !(a.last() is Blank),
        !(b[0] is Blank),
    ensures
        framed(a + seq![Action::Blank] + b),
{
    let blank = seq![Action::Blank];
    let ops = a + blank + b;
    assert forall|i: int| 0 <= i < ops.len() implies #[trigger] in_place(ops, i) by {
        if i < a.len() {
            assert(ops =~= a + (blank + b));
            lemma_in_place_left(a, blank + b, i);
        } else if i == a.len() {
            assert(ops[i - 1] == a.last());
            assert(ops[i] == Action::Blank);
            assert(ops[i + 1] == b[0]);
        } else {
            lemma_in_place_right(a + blank, b, i - a.len() - 1);
        }
    }
}

proof fn lemma_framed_init()
    ensures
        framed(init_ops()),
        init_ops().len() > 0,
        init_ops()[0] is CsHigh,
{
    let a = reset_ops();
    let power = table_ops(power_table());
    let sleep = command_ops(SLEEP_OUT, Seq::empty());
    let wait = seq![Action::DelayMs(200)];
    let wake = table_ops(wake_table());
    lemma_framed_plain(a);
    lemma_framed_plain(wait);
    lemma_framed_table(power_table());
    lemma_framed_command(SLEEP_OUT, Seq::empty());
    lemma_framed_table(wake_table());
    lemma_framed_flush();
    lemma_framed_concat(a, power);
    lemma_framed_concat(a + power, sleep);
    lemma_framed_concat(a + power + sleep, wait);
    lemma_framed_concat(a + power + sleep + wait, wake);
    lemma_table_ends_high(wake_table());
    let before = a + power + sleep + wait + wake;
    assert(before.last() == wake.last());
    lemma_framed_around_blank(before, flush_ops());
    assert(init_ops() =~= before + seq![Action::Blank] + flush_ops());
    assert(init_ops()[0] == a[0]);
}

/// A table that is not empty ends by releasing CS.
proof fn lemma_table_ends_high(table: Seq<(u8, Seq<u8>)>)
    requires
        table.len() > 0,
    ensures
        table_ops(table).len() > 0,
        table_ops(table).last() is CsHigh,
{
    let params = table.last().1;
    let command = command_ops(table.last().0, params);
    assert(command.last() is CsHigh) by {
        if params.len() > 0 {
            let last = transaction_ops(true, Action::SendByte(params.last()));
            assert(params_ops(params).last() == last[3]);
            assert(command.last() == params_ops(params).last());
        } else {
            assert(command =~= transaction_ops(false, Action::SendByte(table.last().0)));
        }
    }
    assert(table_ops(table).last() == command.last());
}

/// The run after a series of outcomes was reported.
pub open spec fn run_through(run: Run, outcomes: Seq<bool>) -> Run
    decreases outcomes.len(),
{
    if outcomes.len() == 0 {
        run
    } else {
        run_through(run, outcomes.drop_last()).after(outcomes.last())
    }
}

/// The actions that were performed, each with whether it worked.
pub open spec fn trace(run: Run, outcomes: Seq<bool>) -> Seq<(Action, bool)>
    decreases outcomes.len(),
{
    if outcomes.len() == 0 {
        Seq::empty()
    } else {
        let before = run_through(run, outcomes.drop_last());
        let sofar = trace(run, outcomes.drop_last());
        if before.done() {
            sofar
        } else {
            sofar.push((before.ops[before.pc], outcomes.last()))
        }
    }
}

/// The actions of a trace.
pub open spec fn actions_of(trace: Seq<(Action, bool)>) -> Seq<Action> {
    Seq::new(trace.len(), |i: int| trace[i].0)
}

/// Whether the panel is left selected: CS was driven low and never asked high
/// again.
pub open spec fn selected(trace: Seq<(Action, bool)>) -> bool
    decreases trace.len(),
{
    if trace.len() == 0 {
        false
    } else {
        match trace.last().0 {
            Action::CsLow => trace.last().1,
            Action::CsHigh => false,
            _ => selected(trace.drop_last()),
        }
    }
}

/// The kind of the first action in a trace that failed.
pub open spec fn first_fault(trace: Seq<(Action, bool)>) -> Option<Error>
    decreases trace.len(),
{
    if trace.len() == 0 {
        None
    } else if first_fault(trace.drop_last()) is Some {
        first_fault(trace.drop_last())
    } else if trace.last().1 {
        None
    } else {
        fault_of(trace.last().0)
    }
}

/// The actions of a list that the owner performs.
pub open spec fn without_blanks(ops: Seq<Action>) -> Seq<Action>
    decreases ops.len(),
{
    if ops.len() == 0 {
        Seq::empty()
    } else if ops.last() is Blank {
        without_blanks(ops.drop_last())
    } else {
        without_blanks(ops.drop_last()).push(ops.last())
    }
}

/// Whether CS is asserted at the current position of a run.
spec fn holding(run: Run) -> bool {
    &&& !run.done()
    &&& is_dc(run.ops[run.pc]) || is_send(run.ops[run.pc]) || (run.ops[run.pc] is CsHigh && run.pc
        >= 1 && is_send(run.ops[run.pc - 1]))
}

proof fn lemma_after_keeps_wf(run: Run, ok: bool)
    requires
        run.wf(),
    ensures
        run.after(ok).wf(),
        run.after(ok).ops == run.ops,
{
    if !run.done() {
        let ops = run.ops;
        let pc = run.pc;
        assert(in_place(ops, pc));
        if pc + 1 < ops.len() {
            assert(in_place(ops, pc + 1));
        }
    }
}

/// CS is released on every path, errors included: whatever fails, once an
/// operation of the driver is over the panel is not left selected.
pub proof fn law_cs_is_released(ops: Seq<Action>, outcomes: Seq<bool>)
    requires
        begin(ops).wf(),
    ensures
        run_through(begin(ops), outcomes).done() ==> !selected(trace(begin(ops), outcomes)),
{
    lemma_selected_means_holding(ops, outcomes);
}

proof fn lemma_selected_means_holding(ops: Seq<Action>, outcomes: Seq<bool>)
    requires
        begin(ops).wf(),
    ensures
        run_through(begin(ops), outcomes).wf(),
        run_through(begin(ops), outcomes).ops == ops,
        selected(trace(begin(ops), outcomes)) ==> holding(run_through(begin(ops), outcomes)),
    decreases outcomes.len(),
{
    if outcomes.len() > 0 {
        lemma_selected_means_holding(ops, outcomes.drop_last());
        let before = run_through(begin(ops), outcomes.drop_last());
        let after = run_through(begin(ops), outcomes);
        let sofar = trace(begin(ops), outcomes.drop_last());
        lemma_after_keeps_wf(before, outcomes.last());
        if !before.done() {
            let now = trace(begin(ops), outcomes);
            assert(now.drop_last() =~= sofar);
            let pc = before.pc;
            assert(in_place(ops, pc));
            if pc + 1 < ops.len() {
                assert(in_place(ops, pc + 1));
            }
        }
    }
}

/// The error that is reported is the first one that happened, and there is none
/// when nothing failed.
pub proof fn law_first_fault_is_reported(ops: Seq<Action>, outcomes: Seq<bool>)
    requires
        begin(ops).wf(),
    ensures
        run_through(begin(ops), outcomes).fault == first_fault(trace(begin(ops), outcomes)),
    decreases outcomes.len(),
{
    if outcomes.len() > 0 {
        law_first_fault_is_reported(ops, outcomes.drop_last());
        let before = run_through(begin(ops), outcomes.drop_last());
        if !before.done() {
            assert(trace(begin(ops), outcomes).drop_last() =~= trace(
                begin(ops),
                outcomes.drop_last(),
            ));
        }
    }
}

/// When every action works, the run performs each action of its list once and
/// in order, and succeeds.
pub proof fn law_success_performs_everything(ops: Seq<Action>, outcomes: Seq<bool>)
    requires
        begin(ops).wf(),
        forall|i: int| 0 <= i < outcomes.len() ==> outcomes[i],
    ensures
        run_through(begin(ops), outcomes).fault is None,
        run_through(begin(ops), outcomes).done() ==> actions_of(trace(begin(ops), outcomes))
            == without_blanks(ops),
{
    lemma_success_so_far(ops, outcomes);
    let run = run_through(begin(ops), outcomes);
    if run.done() {
        assert(ops.take(run.pc) =~= ops);
    }
}

proof fn lemma_success_so_far(ops: Seq<Action>, outcomes: Seq<bool>)
    requires
        begin(ops).wf(),
        forall|i: int| 0 <= i < outcomes.len() ==> outcomes[i],
    ensures
        ({
            let run = run_through(begin(ops), outcomes);
            &&& run.wf()
            &&& run.ops == ops
            &&& run.fault is None
            &&& actions_of(trace(begin(ops), outcomes)) == without_blanks(ops.take(run.pc))
        }),
    decreases outcomes.len(),
{
    if outcomes.len() == 0 {
        assert(ops.take(0).len() == 0);
        assert(actions_of(trace(begin(ops), outcomes)) =~= without_blanks(ops.take(0)));
    } else {
        lemma_success_so_far(ops, outcomes.drop_last());
        let before = run_through(begin(ops), outcomes.drop_last());
        let after = run_through(begin(ops), outcomes);
        lemma_after_keeps_wf(before, outcomes.last());
        if !before.done() {
            let pc = before.pc;
            assert(outcomes[outcomes.len() - 1]);
            assert(after.pc == next_pc(ops, pc));
            assert(ops.take(pc + 1).drop_last() =~= ops.take(pc));
            assert(ops.take(pc + 1).last() == ops[pc]);
            assert(without_blanks(ops.take(pc + 1)) == without_blanks(ops.take(pc)).push(ops[pc]));
            if pc + 1 < ops.len() && ops[pc + 1] is Blank {
                assert(in_place(ops, pc + 1));
                assert(ops.take(pc + 2).drop_last() =~= ops.take(pc + 1));
                assert(ops.take(pc + 2).last() == ops[pc + 1]);
            }
            assert(actions_of(trace(begin(ops), outcomes)) =~= actions_of(
                trace(begin(ops), outcomes.drop_last()),
            ).push(ops[pc]));
        }
    }
}

/// Whether a list has nothing for the driver itself to do.
spec fn no_blanks(ops: Seq<Action>) -> bool {
    forall|i: int| 0 <= i < ops.len() ==> !(#[trigger] ops[i] is Blank)
}

/// A list without blanks, as long as everything works.
proof fn lemma_works_so_far(ops: Seq<Action>, outcomes: Seq<bool>)
    requires
        no_blanks(ops),
        outcomes.len() <= ops.len(),
        forall|i: int| 0 <= i < outcomes.len() ==> outcomes[i],
    ensures
        run_through(begin(ops), outcomes) == (Run {
            ops,
            pc: outcomes.len() as int,
            fault: None,
        }),
        actions_of(trace(begin(ops), outcomes)) == ops.take(outcomes.len() as int),
    decreases outcomes.len(),
{
    let n = outcomes.len() as int;
    if n == 0 {
        assert(actions_of(trace(begin(ops), outcomes)) =~= ops.take(0));
    } else {
        let before = outcomes.drop_last();
        lemma_works_so_far(ops, before);
        assert(outcomes[n - 1]);
        if n < ops.len() {
            assert(!(ops[n] is Blank));
        }
        assert(actions_of(trace(begin(ops), outcomes)) =~= actions_of(
            trace(begin(ops), before),
        ).push(ops[n - 1]));
        assert(ops.take(n) =~= ops.take(n - 1).push(ops[n - 1]));
    }
}

/// The bytes of a command: the command itself, then its parameters.
pub open spec fn command_bytes(command: u8, params: Seq<u8>) -> Seq<u8> {
    seq![command] + params
}

/// Transaction `k` of a command.
proof fn lemma_command_transaction(command: u8, params: Seq<u8>, k: int)
    requires
        0 <= k <= params.len(),
    ensures
        command_ops(command, params).len() == 4 * (params.len() + 1),
        command_ops(command, params).subrange(4 * k, 4 * k + 4) == transaction_ops(
            k > 0,
            Action::SendByte(command_bytes(command, params)[k]),
        ),
    decreases params.len(),
{
    let ops = command_ops(command, params);
    let byte = command_bytes(command, params)[k];
    if params.len() == 0 {
        assert(ops.subrange(0, 4) =~= transaction_ops(false, Action::SendByte(byte)));
    } else {
        let fewer = params.drop_last();
        let less = command_ops(command, fewer);
        let last = transaction_ops(true, Action::SendByte(params.last()));
        assert(ops =~= less + last);
        if k == params.len() {
            lemma_command_transaction(command, fewer, 0);
            assert(ops.subrange(4 * k, 4 * k + 4) =~= last);
        } else {
            lemma_command_transaction(command, fewer, k);
            assert(ops.subrange(4 * k, 4 * k + 4) =~= less.subrange(4 * k, 4 * k + 4));
            assert(command_bytes(command, fewer)[k] == byte);
        }
    }
}

/// A command is made of transactions and of nothing else.
proof fn lemma_command_has_no_blanks(command: u8, params: Seq<u8>)
    ensures
        no_blanks(command_ops(command, params)),
{
    let ops = command_ops(command, params);
    lemma_command_transaction(command, params, 0);
    assert forall|i: int| 0 <= i < ops.len() implies !(#[trigger] ops[i] is Blank) by {
        let k = i / 4;
        lemma_command_transaction(command, params, k);
        assert(ops.subrange(4 * k, 4 * k + 4)[i - 4 * k] == ops[i]);
    }
}

/// What is reported to a command whose action number `at` is the first to fail, and
/// what to its release of CS after that. Nothing fails when `at` is the end.
pub open spec fn failing_at(ops: Seq<Action>, at: int, released: bool) -> Seq<bool> {
    let worked = Seq::new(at as nat, |i: int| true);
    if at >= ops.len() {
        worked
    } else if is_dc(ops[at]) || is_send(ops[at]) {
        worked.push(false).push(released)
    } else {
        worked.push(false)
    }
}

/// What is performed of a command whose action number `at` is the first to fail:
/// everything up to it, and the release of CS where that is still owed.
pub open spec fn performed_until(ops: Seq<Action>, at: int) -> Seq<Action> {
    if at >= ops.len() {
        ops
    } else if is_dc(ops[at]) || is_send(ops[at]) {
        ops.take(at + 1).push(Action::CsHigh)
    } else {
        ops.take(at + 1)
    }
}

/// A command goes out in one transaction per byte, its own first and then one for
/// each parameter in order. It stops at the first action that fails, number `at`,
/// and reports that failure: nothing comes after it but the release of CS, so no
/// later byte goes out. When nothing fails it is performed whole and succeeds. The
/// frame stays as it is either way.
pub proof fn law_command_is_one_transaction_per_byte(
    command: u8,
    params: Seq<u8>,
    at: int,
    released: bool,
)
    requires
        0 <= at <= command_ops(command, params).len(),
    ensures
        begin(command_ops(command, params)).wf(),
        command_ops(command, params).len() == 4 * (params.len() + 1),
        forall|k: int|
            0 <= k <= params.len() ==> #[trigger] command_ops(command, params).subrange(
                4 * k,
                4 * k + 4,
            ) == transaction_ops(
                k > 0,
                Action::SendByte(command_bytes(command, params)[k]),
            ),
        ({
            let ops = command_ops(command, params);
            let outcomes = failing_at(ops, at, released);
            let run = run_through(begin(ops), outcomes);
            &&& run.done()
            &&& run.result() == (if at < ops.len() {
                Err(fault_of(ops[at])->0)
            } else {
                Ok::<(), Error>(())
            })
            &&& at < ops.len() ==> fault_of(ops[at]) is Some
            &&& actions_of(trace(begin(ops), outcomes)) == performed_until(ops, at)
        }),
        forall|outcomes: Seq<bool>, ok: bool|
            !(#[trigger] run_through(begin(command_ops(command, params)), outcomes).blanks(ok)),
{
    let ops = command_ops(command, params);
    lemma_framed_command(command, params);
    lemma_command_has_no_blanks(command, params);
    lemma_command_transaction(command, params, 0);
    assert(!(ops[0] is Blank));
    assert forall|k: int| 0 <= k <= params.len() implies #[trigger] ops.subrange(4 * k, 4 * k + 4)
        == transaction_ops(k > 0, Action::SendByte(command_bytes(command, params)[k])) by {
        lemma_command_transaction(command, params, k);
    }
    assert forall|outcomes: Seq<bool>, ok: bool|
        !(#[trigger] run_through(begin(ops), outcomes).blanks(ok)) by {
        lemma_selected_means_holding(ops, outcomes);
        let run = run_through(begin(ops), outcomes);
        if 0 <= run.pc && run.pc + 1 < ops.len() {
            assert(!(ops[run.pc + 1] is Blank));
        }
    }
    if at < ops.len() {
        lemma_command_stops(command, params, at, released);
    } else {
        lemma_works_so_far(ops, failing_at(ops, at, released));
        assert(ops.take(ops.len() as int) =~= ops);
    }
}

/// A command whose action number `at` fails.
proof fn lemma_command_stops(command: u8, params: Seq<u8>, at: int, released: bool)
    requires
        0 <= at < command_ops(command, params).len(),
    ensures
        ({
            let ops = command_ops(command, params);
            let outcomes = failing_at(ops, at, released);
            let run = run_through(begin(ops), outcomes);
            &&& fault_of(ops[at]) is Some
            &&& run.done()
            &&& run.result() == Err::<(), Error>(fault_of(ops[at])->0)
            &&& actions_of(trace(begin(ops), outcomes)) == performed_until(ops, at)
        }),
{
    let ops = command_ops(command, params);
    let worked = Seq::new(at as nat, |i: int| true);
    let failed = worked.push(false);
    lemma_command_has_no_blanks(command, params);
    lemma_framed_command(command, params);
    lemma_works_so_far(ops, worked);
    assert(in_place(ops, at));
    let k = at / 4;
    lemma_command_transaction(command, params, 0);
    lemma_command_transaction(command, params, k);
    assert(ops.subrange(4 * k, 4 * k + 4)[at - 4 * k] == ops[at]);
    assert(failed.drop_last() =~= worked);
    let after = run_through(begin(ops), failed);
    assert(actions_of(trace(begin(ops), failed)) =~= ops.take(at).push(ops[at]));
    assert(ops.take(at + 1) =~= ops.take(at).push(ops[at]));
    if is_dc(ops[at]) || is_send(ops[at]) {
        let outcomes = failed.push(released);
        assert(outcomes.drop_last() =~= failed);
        assert(ops[after.pc] is CsHigh);
        assert(actions_of(trace(begin(ops), outcomes)) =~= ops.take(at + 1).push(Action::CsHigh));
    }
}

/// The picture in the frame after a series of outcomes was reported, starting from
/// `picture`.
pub open spec fn frame_through(
    run: Run,
    outcomes: Seq<bool>,
    picture: Set<(int, int)>,
) -> Set<(int, int)>
    decreases outcomes.len(),
{
    if outcomes.len() == 0 {
        picture
    } else if run_through(run, outcomes.drop_last()).blanks(outcomes.last()) {
        Set::empty()
    } else {
        frame_through(run, outcomes.drop_last(), picture)
    }
}

/// Performing a flush leaves the frame alone, whatever works or fails.
pub proof fn law_flush_leaves_the_frame(outcomes: Seq<bool>, picture: Set<(int, int)>)
    ensures
        frame_through(begin(flush_ops()), outcomes, picture) == picture,
    decreases outcomes.len(),
{
    if outcomes.len() > 0 {
        let before = outcomes.drop_last();
        law_flush_leaves_the_frame(before, picture);
        lemma_framed_flush();
        lemma_selected_means_holding(flush_ops(), before);
        lemma_flush_has_no_blanks();
        let run = run_through(begin(flush_ops()), before);
        if run.pc + 1 < flush_ops().len() {
            assert(!(flush_ops()[run.pc + 1] is Blank));
        }
    }
}

proof fn lemma_flush_has_no_blanks()
    ensures
        no_blanks(flush_ops()),
{
    lemma_command_has_no_blanks(COLUMN_ADDRESS_SET, seq![COL_START, COL_END]);
    lemma_command_has_no_blanks(ROW_ADDRESS_SET, seq![ROW_START, ROW_END]);
    let cols = command_ops(COLUMN_ADDRESS_SET, seq![COL_START, COL_END]);
    let rows = command_ops(ROW_ADDRESS_SET, seq![ROW_START, ROW_END]);
    let write = transaction_ops(false, Action::SendByte(MEMORY_WRITE));
    let frame = transaction_ops(true, Action::SendFrame);
    lemma_no_blanks_concat(cols, rows);
    lemma_no_blanks_concat(cols + rows, write);
    lemma_no_blanks_concat(cols + rows + write, frame);
}

proof fn lemma_no_blanks_concat(a: Seq<Action>, b: Seq<Action>)
    requires
        no_blanks(a),
        no_blanks(b),
    ensures
        no_blanks(a + b),
{
    let ops = a + b;
    assert forall|i: int| 0 <= i < ops.len() implies !(#[trigger] ops[i] is Blank) by {
        if i < a.len() {
            assert(ops[i] == a[i]);
        } else {
            assert(ops[i] == b[i - a.len()]);
        }
    }
}

proof fn lemma_table_has_no_blanks(table: Seq<(u8, Seq<u8>)>)
    ensures
        no_blanks(table_ops(table)),
    decreases table.len(),
{
    if table.len() > 0 {
        lemma_table_has_no_blanks(table.drop_last());
        lemma_command_has_no_blanks(table.last().0, table.last().1);
        lemma_no_blanks_concat(
            table_ops(table.drop_last()),
            command_ops(table.last().0, table.last().1),
        );
    }
}

/// What an init does before it blanks the frame.
pub open spec fn configure_ops() -> Seq<Action> {
    reset_ops() + table_ops(power_table()) + command_ops(SLEEP_OUT, Seq::empty()) + seq![
        Action::DelayMs(200),
    ] + table_ops(wake_table())
}

/// An init blanks the frame once, between configuring the panel and shipping the
/// frame.
proof fn lemma_init_blanks_once()
    ensures
        init_ops() == configure_ops() + seq![Action::Blank] + flush_ops(),
        configure_ops().len() > 0,
        no_blanks(configure_ops()),
        no_blanks(flush_ops()),
        flush_ops().len() == 32,
        flush_ops()[30] == Action::SendFrame,
        flush_ops()[31] == Action::CsHigh,
{
    let a = reset_ops();
    let power = table_ops(power_table());
    let sleep = command_ops(SLEEP_OUT, Seq::empty());
    let wait = seq![Action::DelayMs(200)];
    let wake = table_ops(wake_table());
    lemma_table_has_no_blanks(power_table());
    lemma_table_has_no_blanks(wake_table());
    lemma_command_has_no_blanks(SLEEP_OUT, Seq::empty());
    lemma_no_blanks_concat(a, power);
    lemma_no_blanks_concat(a + power, sleep);
    lemma_no_blanks_concat(a + power + sleep, wait);
    lemma_no_blanks_concat(a + power + sleep + wait, wake);
    lemma_flush_has_no_blanks();
    lemma_framed_flush();
    let frame = transaction_ops(true, Action::SendFrame);
    assert(flush_ops()[30] == frame[2]);
    assert(flush_ops()[31] == frame[3]);
    assert(init_ops() =~= configure_ops() + seq![Action::Blank] + flush_ops());
}

/// An init in which everything has worked so far.
proof fn lemma_init_so_far(outcomes: Seq<bool>, picture: Set<(int, int)>)
    requires
        outcomes.len() < init_ops().len(),
        forall|i: int| 0 <= i < outcomes.len() ==> outcomes[i],
    ensures
        ({
            let n = outcomes.len() as int;
            let blank_at = configure_ops().len() as int;
            let run = run_through(begin(init_ops()), outcomes);
            &&& run.ops == init_ops()
            &&& run.fault is None
            &&& run.pc == (if n < blank_at {
                n
            } else {
                n + 1
            })
            &&& frame_through(begin(init_ops()), outcomes, picture) == (if n < blank_at {
                picture
            } else {
                Set::empty()
            })
        }),
    decreases outcomes.len(),
{
    lemma_init_blanks_once();
    let ops = init_ops();
    let n = outcomes.len() as int;
    let blank_at = configure_ops().len() as int;
    if n > 0 {
        lemma_init_so_far(outcomes.drop_last(), picture);
        assert(outcomes[n - 1]);
        let run = run_through(begin(ops), outcomes.drop_last());
        if run.pc + 1 < ops.len() {
            if run.pc + 1 < blank_at {
                assert(ops[run.pc + 1] == configure_ops()[run.pc + 1]);
            } else if run.pc + 1 > blank_at {
                assert(ops[run.pc + 1] == flush_ops()[run.pc - blank_at]);
            } else {
                assert(ops[blank_at] == Action::Blank);
            }
        }
    }
}

/// An init in which everything works ends with a blank frame on the panel: shipping
/// the frame is the last thing that is sent, and the frame is blank when that is
/// asked for, whatever was in it before.
pub proof fn law_init_ships_a_blank_frame(outcomes: Seq<bool>, picture: Set<(int, int)>)
    requires
        outcomes.len() == init_ops().len() - 1,
        forall|i: int| 0 <= i < outcomes.len() ==> outcomes[i],
    ensures
        ({
            let start = begin(init_ops());
            let end = run_through(start, outcomes);
            let actions = actions_of(trace(start, outcomes));
            let n = outcomes.len() as int;
            let shipping = run_through(start, outcomes.take(n - 2));
            &&& end.done()
            &&& end.result() == Ok::<(), Error>(())
            &&& frame_through(start, outcomes, picture) == Set::<(int, int)>::empty()
            &&& actions.len() == n
            &&& actions[n - 2] == Action::SendFrame
            &&& actions[n - 1] == Action::CsHigh
            &&& !shipping.done()
            &&& shipping.ops[shipping.pc] == Action::SendFrame
            &&& frame_through(start, outcomes.take(n - 2), picture) == Set::<(int, int)>::empty()
        }),
{
    lemma_init_blanks_once();
    let ops = init_ops();
    let start = begin(ops);
    let n = outcomes.len() as int;
    let one = outcomes.drop_last();
    let two = one.drop_last();
    assert(outcomes.take(n - 2) =~= two);
    lemma_init_so_far(outcomes, picture);
    lemma_init_so_far(one, picture);
    lemma_init_so_far(two, picture);
    let blank_at = configure_ops().len() as int;
    assert(ops[n - 1] == flush_ops()[30]);
    assert(ops[n] == flush_ops()[31]);
    lemma_init_trace_len(outcomes);
    lemma_init_trace_len(one);
    lemma_init_trace_len(two);
    let t = trace(start, outcomes);
    assert(t == trace(start, one).push((Action::CsHigh, true)));
    assert(trace(start, one) == trace(start, two).push((Action::SendFrame, true)));
}

proof fn lemma_init_trace_len(outcomes: Seq<bool>)
    requires
        outcomes.len() < init_ops().len(),
        forall|i: int| 0 <= i < outcomes.len() ==> outcomes[i],
    ensures
        trace(begin(init_ops()), outcomes).len() == outcomes.len(),
    decreases outcomes.len(),
{
    if outcomes.len() > 0 {
        lemma_init_trace_len(outcomes.drop_last());
        lemma_init_so_far(outcomes.drop_last(), Set::empty());
    }
}

/// What the panel sees of the actions on its wires.
#[derive(Clone, Copy, Debug, PartialEq, Eq, Structural)]
pub enum Seen {
    /// A byte in the command phase.
    Command(u8),
    /// A byte in the data phase.
    Data(u8),
    /// The whole frame, in the data phase.
    Frame,
    /// The reset line goes to this level.
    Reset(bool),
    /// So many milliseconds pass.
    Wait(u32),
}

/// Whether the data/command line is high after some actions.
pub open spec fn in_data_phase(actions: Seq<Action>) -> bool
    decreases actions.len(),
{
    if actions.len() == 0 {
        false
    } else {
        match actions.last() {
            Action::DcHigh => true,
            Action::DcLow => false,
            _ => in_data_phase(actions.drop_last()),
        }
    }
}

/// What the panel sees of some actions, in order.
pub open spec fn seen(actions: Seq<Action>) -> Seq<Seen>
    decreases actions.len(),
{
    if actions.len() == 0 {
        Seq::empty()
    } else {
        let before = seen(actions.drop_last());
        match actions.last() {
            Action::SendByte(byte) => before.push(
                if in_data_phase(actions.drop_last()) {
                    Seen::Data(byte)
                } else {
                    Seen::Command(byte)
                },
            ),
            Action::SendFrame => before.push(Seen::Frame),
            Action::RstLow => before.push(Seen::Reset(false)),
            Action::RstHigh => before.push(Seen::Reset(true)),
            Action::DelayMs(ms) => before.push(Seen::Wait(ms)),
            _ => before,
        }
    }
}

/// A transaction puts its payload on the wires in its own phase, whatever was before.
proof fn lemma_seen_transaction(before: Seq<Action>, data_phase: bool, payload: Action)
    requires
        is_send(payload),
    ensures
        seen(before + transaction_ops(data_phase, payload)) == seen(before).push(
            match payload {
                Action::SendByte(byte) => if data_phase {
                    Seen::Data(byte)
                } else {
                    Seen::Command(byte)
                },
                _ => Seen::Frame,
            },
        ),
{
    let ops = transaction_ops(data_phase, payload);
    let a4 = before + ops;
    let a3 = a4.drop_last();
    let a2 = a3.drop_last();
    let a1 = a2.drop_last();
    assert(a1.drop_last() =~= before);
    assert(a4.last() == Action::CsHigh);
    assert(a3.last() == payload);
    assert(a2.last() == ops[1]);
    assert(a1.last() == Action::CsLow);
    assert(seen(a1) == seen(before));
    assert(seen(a2) == seen(before));
    assert(in_data_phase(a2) == data_phase);
    match payload {
        Action::SendByte(byte) => {
            assert(seen(a3) == seen(before).push(
                if data_phase {
                    Seen::Data(byte)
                } else {
                    Seen::Command(byte)
                },
            ));
        },
        _ => {
            assert(seen(a3) == seen(before).push(Seen::Frame));
        },
    }
}

/// The parameters of a command, as the panel sees them.
spec fn data_seen(params: Seq<u8>) -> Seq<Seen> {
    Seq::new(params.len(), |i: int| Seen::Data(params[i]))
}

proof fn lemma_seen_params(before: Seq<Action>, params: Seq<u8>)
    ensures
        seen(before + params_ops(params)) == seen(before) + data_seen(params),
    decreases params.len(),
{
    if params.len() == 0 {
        assert(before + params_ops(params) =~= before);
        assert(seen(before) + data_seen(params) =~= seen(before));
    } else {
        let most = params_ops(params.drop_last());
        let last = transaction_ops(true, Action::SendByte(params.last()));
        lemma_seen_params(before, params.drop_last());
        lemma_seen_transaction(before + most, true, Action::SendByte(params.last()));
        assert(before + params_ops(params) =~= before + most + last);
        assert(seen(before) + data_seen(params) =~= (seen(before) + data_seen(
            params.drop_last(),
        )).push(Seen::Data(params.last())));
    }
}

/// A command is seen as itself and then its parameters.
proof fn lemma_seen_command(before: Seq<Action>, command: u8, params: Seq<u8>)
    ensures
        seen(before + command_ops(command, params)) == seen(before) + seq![Seen::Command(command)]
            + data_seen(params),
{
    let first = transaction_ops(false, Action::SendByte(command));
    lemma_seen_transaction(before, false, Action::SendByte(command));
    lemma_seen_params(before + first, params);
    assert(before + command_ops(command, params) =~= before + first + params_ops(params));
    assert(seen(before).push(Seen::Command(command)) =~= seen(before) + seq![
        Seen::Command(command),
    ]);
}

/// The commands of a table, as the panel sees them.
spec fn table_seen(table: Seq<(u8, Seq<u8>)>) -> Seq<Seen>
    decreases table.len(),
{
    if table.len() == 0 {
        Seq::empty()
    } else {
        table_seen(table.drop_last()) + seq![Seen::Command(table.last().0)] + data_seen(
            table.last().1,
        )
    }
}

proof fn lemma_seen_table(before: Seq<Action>, table: Seq<(u8, Seq<u8>)>)
    ensures
        seen(before + table_ops(table)) == seen(before) + table_seen(table),
    decreases table.len(),
{
    if table.len() == 0 {
        assert(before + table_ops(table) =~= before);
        assert(seen(before) + table_seen(table) =~= seen(before));
    } else {
        let most = table_ops(table.drop_last());
        let (command, params) = table.last();
        lemma_seen_table(before, table.drop_last());
        lemma_seen_command(before + most, command, params);
        assert(before + table_ops(table) =~= before + most + command_ops(command, params));
        assert(seen(before) + table_seen(table) =~= seen(before) + table_seen(table.drop_last())
            + seq![Seen::Command(command)] + data_seen(params));
    }
}

/// What the panel sees of a reset.
proof fn lemma_seen_reset()
    ensures
        seen(reset_ops()) == seq![
            Seen::Reset(true),
            Seen::Wait(50),
            Seen::Reset(false),
            Seen::Wait(20),
            Seen::Reset(true),
            Seen::Wait(50),
        ],
{
    let a7 = reset_ops();
    let a6 = a7.drop_last();
    let a5 = a6.drop_last();
    let a4 = a5.drop_last();
    let a3 = a4.drop_last();
    let a2 = a3.drop_last();
    let a1 = a2.drop_last();
    assert(a1.drop_last() =~= Seq::<Action>::empty());
    assert(seen(a1.drop_last()) =~= Seq::<Seen>::empty());
    assert(seen(a1) =~= Seq::<Seen>::empty());
    assert(seen(a2) =~= seq![Seen::Reset(true)]);
    assert(seen(a3) =~= seq![Seen::Reset(true), Seen::Wait(50)]);
    assert(seen(a4) =~= seq![Seen::Reset(true), Seen::Wait(50), Seen::Reset(false)]);
    assert(seen(a5) =~= seq![
        Seen::Reset(true),
        Seen::Wait(50),
        Seen::Reset(false),
        Seen::Wait(20),
    ]);
    assert(seen(a6) =~= seq![
        Seen::Reset(true),
        Seen::Wait(50),
        Seen::Reset(false),
        Seen::Wait(20),
        Seen::Reset(true),
    ]);
    assert(seen(a7) =~= seen(a6).push(Seen::Wait(50)));
}

/// What the panel sees of shipping the frame: the window of columns and rows, the
/// command to write, and the frame.
proof fn lemma_seen_flush(before: Seq<Action>)
    ensures
        seen(before + flush_ops()) == seen(before) + seq![
            Seen::Command(0x2A),
            Seen::Data(0x12),
            Seen::Data(0x2A),
            Seen::Command(0x2B),
            Seen::Data(0x00),
            Seen::Data(0xC7),
            Seen::Command(0x2C),
            Seen::Frame,
        ],
{
    let col_params = seq![COL_START, COL_END];
    let row_params = seq![ROW_START, ROW_END];
    let cols = command_ops(COLUMN_ADDRESS_SET, col_params);
    let rows = command_ops(ROW_ADDRESS_SET, row_params);
    let write = transaction_ops(false, Action::SendByte(MEMORY_WRITE));
    let frame = transaction_ops(true, Action::SendFrame);
    lemma_seen_command(before, COLUMN_ADDRESS_SET, col_params);
    lemma_seen_command(before + cols, ROW_ADDRESS_SET, row_params);
    lemma_seen_transaction(before + cols + rows, false, Action::SendByte(MEMORY_WRITE));
    lemma_seen_transaction(before + cols + rows + write, true, Action::SendFrame);
    assert(before + flush_ops() =~= before + cols + rows + write + frame);
    assert(data_seen(col_params) =~= seq![Seen::Data(0x12), Seen::Data(0x2A)]);
    assert(data_seen(row_params) =~= seq![Seen::Data(0x00), Seen::Data(0xC7)]);
    assert(seen(before + flush_ops()) =~= seen(before) + seq![
        Seen::Command(0x2A),
        Seen::Data(0x12),
        Seen::Data(0x2A),
        Seen::Command(0x2B),
        Seen::Data(0x00),
        Seen::Data(0xC7),
        Seen::Command(0x2C),
        Seen::Frame,
    ]);
}

/// What the panel sees of the settings that it gets before it is woken.
#[verifier::rlimit(60)]
proof fn lemma_seen_power()
    ensures
        table_seen(power_table()) == seq![
            Seen::Command(0xD6),
            Seen::Data(0x17),
            Seen::Data(0x02),
            Seen::Command(0xD1),
            Seen::Data(0x01),
            Seen::Command(0xC0),
            Seen::Data(0x11),
            Seen::Data(0x04),
            Seen::Command(0xC1),
            Seen::Data(0x41),
            Seen::Data(0x41),
            Seen::Data(0x41),
            Seen::Data(0x41),
            Seen::Command(0xC2),
            Seen::Data(0x19),
            Seen::Data(0x19),
            Seen::Data(0x19),
            Seen::Data(0x19),
            Seen::Command(0xC4),
            Seen::Data(0x41),
            Seen::Data(0x41),
            Seen::Data(0x41),
            Seen::Data(0x41),
            Seen::Command(0xC5),
            Seen::Data(0x19),
            Seen::Data(0x19),
            Seen::Data(0x19),
            Seen::Data(0x19),
            Seen::Command(0xD8),
            Seen::Data(0xA6),
            Seen::Data(0xE9),
            Seen::Command(0xB2),
            Seen::Data(0x05),
            Seen::Command(0xB3),
            Seen::Data(0xE5),
            Seen::Data(0xF6),
            Seen::Data(0x05),
            Seen::Data(0x46),
            Seen::Data(0x77),
            Seen::Data(0x77),
            Seen::Data(0x77),
            Seen::Data(0x77),
            Seen::Data(0x76),
            Seen::Data(0x45),
            Seen::Command(0xB4),
            Seen::Data(0x05),
            Seen::Data(0x46),
            Seen::Data(0x77),
            Seen::Data(0x77),
            Seen::Data(0x77),
            Seen::Data(0x77),
            Seen::Data(0x76),
            Seen::Data(0x45),
            Seen::Command(0x62),
            Seen::Data(0x32),
            Seen::Data(0x03),
            Seen::Data(0x1F),
            Seen::Command(0xB7),
            Seen::Data(0x13),
            Seen::Command(0xB0),
            Seen::Data(0x64),
        ],
{
    let t14 = power_table();
    let t13 = t14.drop_last();
    let t12 = t13.drop_last();
    let t11 = t12.drop_last();
    let t10 = t11.drop_last();
    let t9 = t10.drop_last();
    let t8 = t9.drop_last();
    let t7 = t8.drop_last();
    let t6 = t7.drop_last();
    let t5 = t6.drop_last();
    let t4 = t5.drop_last();
    let t3 = t4.drop_last();
    let t2 = t3.drop_last();
    let t1 = t2.drop_last();
    let t0 = t1.drop_last();
    assert(table_seen(t0) =~= Seq::<Seen>::empty());
    assert(data_seen(t1.last().1) =~= seq![Seen::Data(0x17), Seen::Data(0x02)]);
    assert(table_seen(t1) =~= table_seen(t0) + seq![Seen::Command(0xD6)] + seq![Seen::Data(0x17), Seen::Data(0x02)]);
    assert(data_seen(t2.last().1) =~= seq![Seen::Data(0x01)]);
    assert(table_seen(t2) =~= table_seen(t1) + seq![Seen::Command(0xD1)] + seq![Seen::Data(0x01)]);
    assert(data_seen(t3.last().1) =~= seq![Seen::Data(0x11), Seen::Data(0x04)]);
    assert(table_seen(t3) =~= table_seen(t2) + seq![Seen::Command(0xC0)] + seq![Seen::Data(0x11), Seen::Data(0x04)]);
    assert(data_seen(t4.last().1) =~= seq![Seen::Data(0x41), Seen::Data(0x41), Seen::Data(0x41), Seen::Data(0x41)]);
    assert(table_seen(t4) =~= table_seen(t3) + seq![Seen::Command(0xC1)] + seq![Seen::Data(0x41), Seen::Data(0x41), Seen::Data(0x41), Seen::Data(0x41)]);
    assert(data_seen(t5.last().1) =~= seq![Seen::Data(0x19), Seen::Data(0x19), Seen::Data(0x19), Seen::Data(0x19)]);
    assert(table_seen(t5) =~= table_seen(t4) + seq![Seen::Command(0xC2)] + seq![Seen::Data(0x19), Seen::Data(0x19), Seen::Data(0x19), Seen::Data(0x19)]);
    assert(data_seen(t6.last().1) =~= seq![Seen::Data(0x41), Seen::Data(0x41), Seen::Data(0x41), Seen::Data(0x41)]);
    assert(table_seen(t6) =~= table_seen(t5) + seq![Seen::Command(0xC4)] + seq![Seen::Data(0x41), Seen::Data(0x41), Seen::Data(0x41), Seen::Data(0x41)]);
    assert(data_seen(t7.last().1) =~= seq![Seen::Data(0x19), Seen::Data(0x19), Seen::Data(0x19), Seen::Data(0x19)]);
    assert(table_seen(t7) =~= table_seen(t6) + seq![Seen::Command(0xC5)] + seq![Seen::Data(0x19), Seen::Data(0x19), Seen::Data(0x19), Seen::Data(0x19)]);
    assert(data_seen(t8.last().1) =~= seq![Seen::Data(0xA6), Seen::Data(0xE9)]);
    assert(table_seen(t8) =~= table_seen(t7) + seq![Seen::Command(0xD8)] + seq![Seen::Data(0xA6), Seen::Data(0xE9)]);
    assert(data_seen(t9.last().1) =~= seq![Seen::Data(0x05)]);
    assert(table_seen(t9) =~= table_seen(t8) + seq![Seen::Command(0xB2)] + seq![Seen::Data(0x05)]);
    assert(data_seen(t10.last().1) =~= seq![Seen::Data(0xE5), Seen::Data(0xF6), Seen::Data(0x05), Seen::Data(0x46), Seen::Data(0x77), Seen::Data(0x77), Seen::Data(0x77), Seen::Data(0x77), Seen::Data(0x76), Seen::Data(0x45)]);
    assert(table_seen(t10) =~= table_seen(t9) + seq![Seen::Command(0xB3)] + seq![Seen::Data(0xE5), Seen::Data(0xF6), Seen::Data(0x05), Seen::Data(0x46), Seen::Data(0x77), Seen::Data(0x77), Seen::Data(0x77), Seen::Data(0x77), Seen::Data(0x76), Seen::Data(0x45)]);
    assert(data_seen(t11.last().1) =~= seq![Seen::Data(0x05), Seen::Data(0x46), Seen::Data(0x77), Seen::Data(0x77), Seen::Data(0x77), Seen::Data(0x77), Seen::Data(0x76), Seen::Data(0x45)]);
    assert(table_seen(t11) =~= table_seen(t10) + seq![Seen::Command(0xB4)] + seq![Seen::Data(0x05), Seen::Data(0x46), Seen::Data(0x77), Seen::Data(0x77), Seen::Data(0x77), Seen::Data(0x77), Seen::Data(0x76), Seen::Data(0x45)]);
    assert(data_seen(t12.last().1) =~= seq![Seen::Data(0x32), Seen::Data(0x03), Seen::Data(0x1F)]);
    assert(table_seen(t12) =~= table_seen(t11) + seq![Seen::Command(0x62)] + seq![Seen::Data(0x32), Seen::Data(0x03), Seen::Data(0x1F)]);
    assert(data_seen(t13.last().1) =~= seq![Seen::Data(0x13)]);
    assert(table_seen(t13) =~= table_seen(t12) + seq![Seen::Command(0xB7)] + seq![Seen::Data(0x13)]);
    assert(data_seen(t14.last().1) =~= seq![Seen::Data(0x64)]);
    assert(table_seen(t14) =~= table_seen(t13) + seq![Seen::Command(0xB0)] + seq![Seen::Data(0x64)]);
    assert(table_seen(t14) =~= seq![
        Seen::Command(0xD6),
        Seen::Data(0x17),
        Seen::Data(0x02),
        Seen::Command(0xD1),
        Seen::Data(0x01),
        Seen::Command(0xC0),
        Seen::Data(0x11),
        Seen::Data(0x04),
        Seen::Command(0xC1),
        Seen::Data(0x41),
        Seen::Data(0x41),
        Seen::Data(0x41),
        Seen::Data(0x41),
        Seen::Command(0xC2),
        Seen::Data(0x19),
        Seen::Data(0x19),
        Seen::Data(0x19),
        Seen::Data(0x19),
        Seen::Command(0xC4),
        Seen::Data(0x41),
        Seen::Data(0x41),
        Seen::Data(0x41),
        Seen::Data(0x41),
        Seen::Command(0xC5),
        Seen::Data(0x19),
        Seen::Data(0x19),
        Seen::Data(0x19),
        Seen::Data(0x19),
        Seen::Command(0xD8),
        Seen::Data(0xA6),
        Seen::Data(0xE9),
        Seen::Command(0xB2),
        Seen::Data(0x05),
        Seen::Command(0xB3),
        Seen::Data(0xE5),
        Seen::Data(0xF6),
        Seen::Data(0x05),
        Seen::Data(0x46),
        Seen::Data(0x77),
        Seen::Data(0x77),
        Seen::Data(0x77),
        Seen::Data(0x77),
        Seen::Data(0x76),
        Seen::Data(0x45),
        Seen::Command(0xB4),
        Seen::Data(0x05),
        Seen::Data(0x46),
        Seen::Data(0x77),
        Seen::Data(0x77),
        Seen::Data(0x77),
        Seen::Data(0x77),
        Seen::Data(0x76),
        Seen::Data(0x45),
        Seen::Command(0x62),
        Seen::Data(0x32),
        Seen::Data(0x03),
        Seen::Data(0x1F),
        Seen::Command(0xB7),
        Seen::Data(0x13),
        Seen::Command(0xB0),
        Seen::Data(0x64),
    ]);
}

/// What the panel sees of the settings that it gets once it is awake.
proof fn lemma_seen_wake()
    ensures
        table_seen(wake_table()) == seq![
            Seen::Command(0xC9),
            Seen::Data(0x00),
            Seen::Command(0x36),
            Seen::Data(0x48),
            Seen::Command(0x3A),
            Seen::Data(0x11),
            Seen::Command(0xB9),
            Seen::Data(0x20),
            Seen::Command(0xB8),
            Seen::Data(0x29),
            Seen::Command(0x21),
            Seen::Command(0x2A),
            Seen::Data(0x12),
            Seen::Data(0x2A),
            Seen::Command(0x2B),
            Seen::Data(0x00),
            Seen::Data(0xC7),
            Seen::Command(0x35),
            Seen::Data(0x00),
            Seen::Command(0xD0),
            Seen::Data(0xFF),
            Seen::Command(0x38),
            Seen::Command(0x29),
        ],
{
    let t12 = wake_table();
    let t11 = t12.drop_last();
    let t10 = t11.drop_last();
    let t9 = t10.drop_last();
    let t8 = t9.drop_last();
    let t7 = t8.drop_last();
    let t6 = t7.drop_last();
    let t5 = t6.drop_last();
    let t4 = t5.drop_last();
    let t3 = t4.drop_last();
    let t2 = t3.drop_last();
    let t1 = t2.drop_last();
    let t0 = t1.drop_last();
    assert(table_seen(t0) =~= Seq::<Seen>::empty());
    assert(data_seen(t1.last().1) =~= seq![Seen::Data(0x00)]);
    assert(table_seen(t1) =~= table_seen(t0) + seq![Seen::Command(0xC9)] + seq![Seen::Data(0x00)]);
    assert(data_seen(t2.last().1) =~= seq![Seen::Data(0x48)]);
    assert(table_seen(t2) =~= table_seen(t1) + seq![Seen::Command(0x36)] + seq![Seen::Data(0x48)]);
    assert(data_seen(t3.last().1) =~= seq![Seen::Data(0x11)]);
    assert(table_seen(t3) =~= table_seen(t2) + seq![Seen::Command(0x3A)] + seq![Seen::Data(0x11)]);
    assert(data_seen(t4.last().1) =~= seq![Seen::Data(0x20)]);
    assert(table_seen(t4) =~= table_seen(t3) + seq![Seen::Command(0xB9)] + seq![Seen::Data(0x20)]);
    assert(data_seen(t5.last().1) =~= seq![Seen::Data(0x29)]);
    assert(table_seen(t5) =~= table_seen(t4) + seq![Seen::Command(0xB8)] + seq![Seen::Data(0x29)]);
    assert(data_seen(t6.last().1) =~= Seq::<Seen>::empty());
    assert(table_seen(t6) =~= table_seen(t5) + seq![Seen::Command(0x21)] + Seq::<Seen>::empty());
    assert(data_seen(t7.last().1) =~= seq![Seen::Data(0x12), Seen::Data(0x2A)]);
    assert(table_seen(t7) =~= table_seen(t6) + seq![Seen::Command(0x2A)] + seq![Seen::Data(0x12), Seen::Data(0x2A)]);
    assert(data_seen(t8.last().1) =~= seq![Seen::Data(0x00), Seen::Data(0xC7)]);
    assert(table_seen(t8) =~= table_seen(t7) + seq![Seen::Command(0x2B)] + seq![Seen::Data(0x00), Seen::Data(0xC7)]);
    assert(data_seen(t9.last().1) =~= seq![Seen::Data(0x00)]);
    assert(table_seen(t9) =~= table_seen(t8) + seq![Seen::Command(0x35)] + seq![Seen::Data(0x00)]);
    assert(data_seen(t10.last().1) =~= seq![Seen::Data(0xFF)]);
    assert(table_seen(t10) =~= table_seen(t9) + seq![Seen::Command(0xD0)] + seq![Seen::Data(0xFF)]);
    assert(data_seen(t11.last().1) =~= Seq::<Seen>::empty());
    assert(table_seen(t11) =~= table_seen(t10) + seq![Seen::Command(0x38)] + Seq::<Seen>::empty());
    assert(data_seen(t12.last().1) =~= Seq::<Seen>::empty());
    assert(table_seen(t12) =~= table_seen(t11) + seq![Seen::Command(0x29)] + Seq::<Seen>::empty());
    assert(table_seen(t12) =~= seq![
        Seen::Command(0xC9),
        Seen::Data(0x00),
        Seen::Command(0x36),
        Seen::Data(0x48),
        Seen::Command(0x3A),
        Seen::Data(0x11),
        Seen::Command(0xB9),
        Seen::Data(0x20),
        Seen::Command(0xB8),
        Seen::Data(0x29),
        Seen::Command(0x21),
        Seen::Command(0x2A),
        Seen::Data(0x12),
        Seen::Data(0x2A),
        Seen::Command(0x2B),
        Seen::Data(0x00),
        Seen::Data(0xC7),
        Seen::Command(0x35),
        Seen::Data(0x00),
        Seen::Command(0xD0),
        Seen::Data(0xFF),
        Seen::Command(0x38),
        Seen::Command(0x29),
    ]);
}

/// What the panel sees of an init that works, from the first edge of the reset to the
/// frame: each command with its parameters, and the waits between them. The values are
/// the panel maker's; they configure the charge pump, the drive voltages, the update
/// waveform and the window.
pub proof fn law_init_on_the_wires(outcomes: Seq<bool>)
    requires
        outcomes.len() == init_ops().len() - 1,
        forall|i: int| 0 <= i < outcomes.len() ==> outcomes[i],
    ensures
        seen(actions_of(trace(begin(init_ops()), outcomes))) == seq![
            Seen::Reset(true),
            Seen::Wait(50),
            Seen::Reset(false),
            Seen::Wait(20),
            Seen::Reset(true),
            Seen::Wait(50),
            Seen::Command(0xD6),
            Seen::Data(0x17),
            Seen::Data(0x02),
            Seen::Command(0xD1),
            Seen::Data(0x01),
            Seen::Command(0xC0),
            Seen::Data(0x11),
            Seen::Data(0x04),
            Seen::Command(0xC1),
            Seen::Data(0x41),
            Seen::Data(0x41),
            Seen::Data(0x41),
            Seen::Data(0x41),
            Seen::Command(0xC2),
            Seen::Data(0x19),
            Seen::Data(0x19),
            Seen::Data(0x19),
            Seen::Data(0x19),
            Seen::Command(0xC4),
            Seen::Data(0x41),
            Seen::Data(0x41),
            Seen::Data(0x41),
            Seen::Data(0x41),
            Seen::Command(0xC5),
            Seen::Data(0x19),
            Seen::Data(0x19),
            Seen::Data(0x19),
            Seen::Data(0x19),
            Seen::Command(0xD8),
            Seen::Data(0xA6),
            Seen::Data(0xE9),
            Seen::Command(0xB2),
            Seen::Data(0x05),
            Seen::Command(0xB3),
            Seen::Data(0xE5),
            Seen::Data(0xF6),
            Seen::Data(0x05),
            Seen::Data(0x46),
            Seen::Data(0x77),
            Seen::Data(0x77),
            Seen::Data(0x77),
            Seen::Data(0x77),
            Seen::Data(0x76),
            Seen::Data(0x45),
            Seen::Command(0xB4),
            Seen::Data(0x05),
            Seen::Data(0x46),
            Seen::Data(0x77),
            Seen::Data(0x77),
            Seen::Data(0x77),
            Seen::Data(0x77),
            Seen::Data(0x76),
            Seen::Data(0x45),
            Seen::Command(0x62),
            Seen::Data(0x32),
            Seen::Data(0x03),
            Seen::Data(0x1F),
            Seen::Command(0xB7),
            Seen::Data(0x13),
            Seen::Command(0xB0),
            Seen::Data(0x64),
            Seen::Command(0x11),
            Seen::Wait(200),
            Seen::Command(0xC9),
            Seen::Data(0x00),
            Seen::Command(0x36),
            Seen::Data(0x48),
            Seen::Command(0x3A),
            Seen::Data(0x11),
            Seen::Command(0xB9),
            Seen::Data(0x20),
            Seen::Command(0xB8),
            Seen::Data(0x29),
            Seen::Command(0x21),
            Seen::Command(0x2A),
            Seen::Data(0x12),
            Seen::Data(0x2A),
            Seen::Command(0x2B),
            Seen::Data(0x00),
            Seen::Data(0xC7),
            Seen::Command(0x35),
            Seen::Data(0x00),
            Seen::Command(0xD0),
            Seen::Data(0xFF),
            Seen::Command(0x38),
            Seen::Command(0x29),
            Seen::Command(0x2A),
            Seen::Data(0x12),
            Seen::Data(0x2A),
            Seen::Command(0x2B),
            Seen::Data(0x00),
            Seen::Data(0xC7),
            Seen::Command(0x2C),
            Seen::Frame,
        ],
{
    let a = reset_ops();
    let power = table_ops(power_table());
    let sleep = command_ops(SLEEP_OUT, Seq::empty());
    let wait = seq![Action::DelayMs(200)];
    let wake = table_ops(wake_table());
    let awake = a + power + sleep + wait;
    lemma_seen_reset();
    lemma_seen_table(a, power_table());
    lemma_seen_power();
    lemma_seen_command(a + power, SLEEP_OUT, Seq::empty());
    assert(data_seen(Seq::empty()) =~= Seq::<Seen>::empty());
    assert(awake.drop_last() =~= a + power + sleep);
    assert(seen(awake) == seen(a + power + sleep).push(Seen::Wait(200)));
    lemma_seen_table(awake, wake_table());
    lemma_seen_wake();
    lemma_seen_flush(awake + wake);
    lemma_init_performed(outcomes);
    assert(actions_of(trace(begin(init_ops()), outcomes)) =~= awake + wake + flush_ops());
    assert(seen(awake + wake + flush_ops()) =~= seq![
        Seen::Reset(true),
        Seen::Wait(50),
        Seen::Reset(false),
        Seen::Wait(20),
        Seen::Reset(true),
        Seen::Wait(50),
        Seen::Command(0xD6),
        Seen::Data(0x17),
        Seen::Data(0x02),
        Seen::Command(0xD1),
        Seen::Data(0x01),
        Seen::Command(0xC0),
        Seen::Data(0x11),
        Seen::Data(0x04),
        Seen::Command(0xC1),
        Seen::Data(0x41),
        Seen::Data(0x41),
        Seen::Data(0x41),
        Seen::Data(0x41),
        Seen::Command(0xC2),
        Seen::Data(0x19),
        Seen::Data(0x19),
        Seen::Data(0x19),
        Seen::Data(0x19),
        Seen::Command(0xC4),
        Seen::Data(0x41),
        Seen::Data(0x41),
        Seen::Data(0x41),
        Seen::Data(0x41),
        Seen::Command(0xC5),
        Seen::Data(0x19),
        Seen::Data(0x19),
        Seen::Data(0x19),
        Seen::Data(0x19),
        Seen::Command(0xD8),
        Seen::Data(0xA6),
        Seen::Data(0xE9),
        Seen::Command(0xB2),
        Seen::Data(0x05),
        Seen::Command(0xB3),
        Seen::Data(0xE5),
        Seen::Data(0xF6),
        Seen::Data(0x05),
        Seen::Data(0x46),
        Seen::Data(0x77),
        Seen::Data(0x77),
        Seen::Data(0x77),
        Seen::Data(0x77),
        Seen::Data(0x76),
        Seen::Data(0x45),
        Seen::Command(0xB4),
        Seen::Data(0x05),
        Seen::Data(0x46),
        Seen::Data(0x77),
        Seen::Data(0x77),
        Seen::Data(0x77),
        Seen::Data(0x77),
        Seen::Data(0x76),
        Seen::Data(0x45),
        Seen::Command(0x62),
        Seen::Data(0x32),
        Seen::Data(0x03),
        Seen::Data(0x1F),
        Seen::Command(0xB7),
        Seen::Data(0x13),
        Seen::Command(0xB0),
        Seen::Data(0x64),
        Seen::Command(0x11),
        Seen::Wait(200),
        Seen::Command(0xC9),
        Seen::Data(0x00),
        Seen::Command(0x36),
        Seen::Data(0x48),
        Seen::Command(0x3A),
        Seen::Data(0x11),
        Seen::Command(0xB9),
        Seen::Data(0x20),
        Seen::Command(0xB8),
        Seen::Data(0x29),
        Seen::Command(0x21),
        Seen::Command(0x2A),
        Seen::Data(0x12),
        Seen::Data(0x2A),
        Seen::Command(0x2B),
        Seen::Data(0x00),
        Seen::Data(0xC7),
        Seen::Command(0x35),
        Seen::Data(0x00),
        Seen::Command(0xD0),
        Seen::Data(0xFF),
        Seen::Command(0x38),
        Seen::Command(0x29),
        Seen::Command(0x2A),
        Seen::Data(0x12),
        Seen::Data(0x2A),
        Seen::Command(0x2B),
        Seen::Data(0x00),
        Seen::Data(0xC7),
        Seen::Command(0x2C),
        Seen::Frame,
    ]);
}

/// What an init performs when everything works: all of its list but the blank, which
/// the driver does itself.
proof fn lemma_init_performed(outcomes: Seq<bool>)
    requires
        outcomes.len() == init_ops().len() - 1,
        forall|i: int| 0 <= i < outcomes.len() ==> outcomes[i],
    ensures
        actions_of(trace(begin(init_ops()), outcomes)) == configure_ops() + flush_ops(),
{
    lemma_init_blanks_once();
    law_operations_are_framed();
    lemma_init_so_far(outcomes, Set::empty());
    law_success_performs_everything(init_ops(), outcomes);
    let before = configure_ops() + seq![Action::Blank];
    lemma_without_blanks_concat(before, flush_ops());
    assert(before.drop_last() =~= configure_ops());
    lemma_without_blanks_keeps(configure_ops());
    lemma_without_blanks_keeps(flush_ops());
}

proof fn lemma_without_blanks_concat(a: Seq<Action>, b: Seq<Action>)
    ensures
        without_blanks(a + b) == without_blanks(a) + without_blanks(b),
    decreases b.len(),
{
    if b.len() == 0 {
        assert(a + b =~= a);
        assert(without_blanks(a) + without_blanks(b) =~= without_blanks(a));
    } else {
        lemma_without_blanks_concat(a, b.drop_last());
        assert((a + b).drop_last() =~= a + b.drop_last());
        assert(without_blanks(a + b) =~= without_blanks(a) + without_blanks(b));
    }
}

proof fn lemma_without_blanks_keeps(ops: Seq<Action>)
    requires
        no_blanks(ops),
    ensures
        without_blanks(ops) == ops,
    decreases ops.len(),
{
    if ops.len() > 0 {
        let before = ops.drop_last();
        assert forall|i: int| 0 <= i < before.len() implies !(#[trigger] before[i] is Blank) by {
            assert(before[i] == ops[i]);
        }
        lemma_without_blanks_keeps(before);
        assert(!(ops[ops.len() - 1] is Blank));
        assert(before.push(ops.last()) =~= ops);
    }
}

/// What the panel sees of a flush that works: the window, the command to write, and the
/// frame, and nothing else.
pub proof fn law_flush_on_the_wires(outcomes: Seq<bool>)
    requires
        outcomes.len() == 32,
        forall|i: int| 0 <= i < outcomes.len() ==> outcomes[i],
    ensures
        run_through(begin(flush_ops()), outcomes).done(),
        run_through(begin(flush_ops()), outcomes).result() == Ok::<(), Error>(()),
        seen(actions_of(trace(begin(flush_ops()), outcomes))) == seq![
            Seen::Command(0x2A),
            Seen::Data(0x12),
            Seen::Data(0x2A),
            Seen::Command(0x2B),
            Seen::Data(0x00),
            Seen::Data(0xC7),
            Seen::Command(0x2C),
            Seen::Frame,
        ],
{
    lemma_framed_flush();
    lemma_flush_has_no_blanks();
    lemma_works_so_far(flush_ops(), outcomes);
    let none = Seq::<Action>::empty();
    lemma_seen_flush(none);
    assert(none + flush_ops() =~= flush_ops());
    assert(flush_ops().take(32) =~= flush_ops());
    assert(seen(none) =~= Seq::<Seen>::empty());
}

/// What the panel sees of a command that works: the command and then its parameters in
/// order, each in its own phase.
pub proof fn law_command_on_the_wires(command: u8, params: Seq<u8>)
    ensures
        seen(command_ops(command, params)).len() == params.len() + 1,
        seen(command_ops(command, params))[0] == Seen::Command(command),
        forall|i: int|
            0 <= i < params.len() ==> #[trigger] seen(command_ops(command, params))[i + 1]
                == Seen::Data(params[i]),
{
    let none = Seq::<Action>::empty();
    lemma_seen_command(none, command, params);
    assert(none + command_ops(command, params) =~= command_ops(command, params));
    assert(seen(none) =~= Seq::<Seen>::empty());
}

/// What kind of failure it is: of the bus for anything that moves bytes, of a control
/// line for anything else, and waiting cannot fail.
pub proof fn law_kinds_of_failure(action: Action)
    ensures
        fault_of(action) == Some(Error::Spi) <==> action is SendByte || action is SendFrame,
        fault_of(action) is None <==> action is DelayMs,
        fault_of(action) == Some(Error::Gpio) <==> !(action is SendByte || action is SendFrame
            || action is DelayMs),
{
}

/// After the first failure nothing is done but one release of CS, and that only where a
/// transaction was cut short.
pub proof fn law_nothing_follows_a_failure(ops: Seq<Action>, outcomes: Seq<bool>)
    requires
        begin(ops).wf(),
        outcomes.len() > 0,
        run_through(begin(ops), outcomes.drop_last()).fault is Some,
    ensures
        run_through(begin(ops), outcomes).done(),
        !run_through(begin(ops), outcomes.drop_last()).done() ==> trace(
            begin(ops),
            outcomes,
        ).last().0 == Action::CsHigh,
        run_through(begin(ops), outcomes).fault == run_through(
            begin(ops),
            outcomes.drop_last(),
        ).fault,
{
    lemma_selected_means_holding(ops, outcomes.drop_last());
}

/// A failed action ends the operation unless it was inside a transaction, and there only
/// the release of CS is left.
pub proof fn law_failure_ends_the_operation(run: Run)
    requires
        run.wf(),
        !run.done(),
        run.fault is None,
        !(run.ops[run.pc] is DelayMs),
    ensures
        run.after(false).fault is Some,
        run.ops[run.pc] is DcLow || run.ops[run.pc] is DcHigh || run.ops[run.pc] is SendByte
            || run.ops[run.pc] is SendFrame ==> !run.after(false).done() && run.ops[run.after(
            false,
        ).pc] is CsHigh && run.after(false).after(true).done() && run.after(false).after(
            false,
        ).done(),
        run.ops[run.pc] is CsLow || run.ops[run.pc] is CsHigh || run.ops[run.pc] is RstLow
            || run.ops[run.pc] is RstHigh ==> run.after(false).done(),
{
    assert(in_place(run.ops, run.pc));
}

/// Shipping the frame and bringing up the panel are lists that the laws above speak
/// of.
pub proof fn law_operations_are_framed()
    ensures
        begin(flush_ops()).wf(),
        begin(init_ops()).wf(),
{
    lemma_framed_flush();
    lemma_framed_init();
}

/// A list of actions under way, and how far it has come.
pub struct Script {
    ops: Vec<Action>,
    pc: usize,
    fault: Option<Error>,
}

impl View for Script {
    type V = Run;

    closed spec fn view(&self) -> Run {
        Run { ops: self.ops@, pc: self.pc as int, fault: self.fault }
    }
}

/// The pairs of [`power_table`].
fn power_commands() -> (table: Vec<(u8, Vec<u8>)>)
    ensures
        table@.len() == power_table().len(),
        forall|i: int|
            0 <= i < table@.len() ==> (#[trigger] table@[i]).0 == power_table()[i].0
                && table@[i].1@ == power_table()[i].1,
{
    let table: Vec<(u8, Vec<u8>)> = vec![
        (NVM_LOAD, vec![0x17, 0x02]),
        (BOOSTER_ENABLE, vec![0x01]),
        (GATE_VOLTAGE, vec![0x11, 0x04]),
        (VSHP, vec![0x41, 0x41, 0x41, 0x41]),
        (VSLP, vec![0x19, 0x19, 0x19, 0x19]),
        (VSHN, vec![0x41, 0x41, 0x41, 0x41]),
        (VSLN, vec![0x19, 0x19, 0x19, 0x19]),
        (VCOM, vec![0xA6, 0xE9]),
        (FRAME_RATE, vec![0x05]),
        (
            UPDATE_PERIOD_HPM,
            vec![0xE5, 0xF6, 0x05, 0x46, 0x77, 0x77, 0x77, 0x77, 0x76, 0x45],
        ),
        (UPDATE_PERIOD_LPM, vec![0x05, 0x46, 0x77, 0x77, 0x77, 0x77, 0x76, 0x45]),
        (SOURCE_TIMING, vec![0x32, 0x03, 0x1F]),
        (GATE_EQ, vec![0x13]),
        (DUTY_CYCLE, vec![0x64]),
    ];
    assert forall|i: int| 0 <= i < table@.len() implies (#[trigger] table@[i]).0
        == power_table()[i].0 && table@[i].1@ == power_table()[i].1 by {
        assert(table@[i].1@ =~= power_table()[i].1);
    }
    table
}

/// The pairs of [`wake_table`].
fn wake_commands() -> (table: Vec<(u8, Vec<u8>)>)
    ensures
        table@.len() == wake_table().len(),
        forall|i: int|
            0 <= i < table@.len() ==> (#[trigger] table@[i]).0 == wake_table()[i].0
                && table@[i].1@ == wake_table()[i].1,
{
    let table: Vec<(u8, Vec<u8>)> = vec![
        (OSC_ENABLE, vec![0x00]),
        (MEMORY_DATA_ACCESS, vec![0x48]),
        (PIXEL_FORMAT, vec![0x11]),
        (GAMMA_MODE, vec![0x20]),
        (SOURCE_EQ, vec![0x29]),
        (INVERSION_ON, vec![]),
        (COLUMN_ADDRESS_SET, vec![COL_START, COL_END]),
        (ROW_ADDRESS_SET, vec![ROW_START, ROW_END]),
        (TEARING_EFFECT_ON, vec![0x00]),
        (AUTO_POWER, vec![0xFF]),
        (HIGH_POWER_MODE, vec![]),
        (DISPLAY_ON, vec![]),
    ];
    assert forall|i: int| 0 <= i < table@.len() implies (#[trigger] table@[i]).0 == wake_table()[i].0
        && table@[i].1@ == wake_table()[i].1 by {
        assert(table@[i].1@ =~= wake_table()[i].1);
    }
    table
}

/// Driver over an SPI bus plus the three control lines.
pub struct St7305<SPI, DC, CS, RST> {
    pub spi: SPI,
    pub dc: DC,
    pub cs: CS,
    pub rst: RST,
    pub frame: Frame,
    pub script: Script,
}

impl<SPI, DC, CS, RST> St7305<SPI, DC, CS, RST> {
    /// The operation under way.
    pub open spec fn run(&self) -> Run {
        self.script@
    }

    /// Wrap the bus and pins. Does not touch the panel: there is nothing to
    /// perform until [`Self::init`].
    pub fn new(spi: SPI, dc: DC, cs: CS, rst: RST) -> (panel: Self)
        ensures
            panel.spi == spi,
            panel.dc == dc,
            panel.cs == cs,
            panel.rst == rst,
            panel.frame@ == Set::<(int, int)>::empty(),
            panel.run() == begin(Seq::empty()),
            panel.run().wf(),
    {
        let panel = St7305 {
            spi,
            dc,
            cs,
            rst,
            frame: Frame::new(),
            script: Script { ops: Vec::new(), pc: 0, fault: None },
        };
        assert(panel.run().ops =~= Seq::<Action>::empty());
        panel
    }

    /// Append one transaction to a list.
    fn push_transaction(ops: &mut Vec<Action>, data_phase: bool, payload: Action)
        requires
            is_send(payload),
        ensures
            final(ops)@ == old(ops)@ + transaction_ops(data_phase, payload),
    {
        ops.push(Action::CsLow);
        if data_phase {
            ops.push(Action::DcHigh);
        } else {
            ops.push(Action::DcLow);
        }
        ops.push(payload);
        ops.push(Action::CsHigh);
        assert(ops@ =~= old(ops)@ + transaction_ops(data_phase, payload));
    }

    /// Append a command, then its parameters one byte per transaction.
    fn push_command(ops: &mut Vec<Action>, command: u8, params: &[u8])
        ensures
            final(ops)@ == old(ops)@ + command_ops(command, params@),
    {
        Self::push_transaction(ops, false, Action::SendByte(command));
        let mut i: usize = 0;
        assert(params_ops(params@.take(0)) =~= Seq::empty());
        while i < params.len()
            invariant
                i <= params@.len(),
                ops@ == old(ops)@ + (transaction_ops(false, Action::SendByte(command)) + params_ops(
                    params@.take(i as int),
                )),
            decreases params@.len() - i,
        {
            Self::push_transaction(ops, true, Action::SendByte(params[i]));
            assert(params@.take(i + 1).drop_last() =~= params@.take(i as int));
            i += 1;
            assert(ops@ =~= old(ops)@ + (transaction_ops(false, Action::SendByte(command))
                + params_ops(params@.take(i as int))));
        }
        assert(params@.take(i as int) =~= params@);
    }

    /// Append the commands of a table.
    fn commands(ops: &mut Vec<Action>, table: &Vec<(u8, Vec<u8>)>, Ghost(want): Ghost<
        Seq<(u8, Seq<u8>)>,
    >)
        requires
            table@.len() == want.len(),
            forall|i: int|
                0 <= i < table@.len() ==> (#[trigger] table@[i]).0 == want[i].0 && table@[i].1@
                    == want[i].1,
        ensures
            final(ops)@ == old(ops)@ + table_ops(want),
    {
        let mut i: usize = 0;
        assert(table_ops(want.take(0)) =~= Seq::empty());
        while i < table.len()
            invariant
                i <= table@.len(),
                table@.len() == want.len(),
                forall|i: int|
                    0 <= i < table@.len() ==> (#[trigger] table@[i]).0 == want[i].0 && table@[i].1@
                        == want[i].1,
                ops@ == old(ops)@ + table_ops(want.take(i as int)),
            decreases table@.len() - i,
        {
            Self::push_command(ops, table[i].0, table[i].1.as_slice());
            assert(want.take(i + 1).drop_last() =~= want.take(i as int));
            assert(want.take(i + 1).last() == want[i as int]);
            i += 1;
            assert(ops@ =~= old(ops)@ + table_ops(want.take(i as int)));
        }
        assert(want.take(i as int) =~= want);
    }

    /// Append what ships the frame.
    fn shipping(ops: &mut Vec<Action>)
        ensures
            final(ops)@ == old(ops)@ + flush_ops(),
    {
        Self::push_command(ops, COLUMN_ADDRESS_SET, &[COL_START, COL_END]);
        Self::push_command(ops, ROW_ADDRESS_SET, &[ROW_START, ROW_END]);
        Self::push_transaction(ops, false, Action::SendByte(MEMORY_WRITE));
        Self::push_transaction(ops, true, Action::SendFrame);
        proof {
            assert([COL_START, COL_END]@ =~= seq![COL_START, COL_END]);
            assert([ROW_START, ROW_END]@ =~= seq![ROW_START, ROW_END]);
        }
        assert(ops@ =~= old(ops)@ + flush_ops());
    }

    /// Start one transaction: assert CS, send at the given DC level, release CS.
    pub fn transaction(&mut self, data_phase: bool, payload: Action)
        requires
            is_send(payload),
        ensures
            final(self).run() == begin(transaction_ops(data_phase, payload)),
            final(self).run().wf(),
            final(self).frame == old(self).frame,
            final(self).spi == old(self).spi,
            final(self).dc == old(self).dc,
            final(self).cs == old(self).cs,
            final(self).rst == old(self).rst,
    {
        let mut ops: Vec<Action> = Vec::new();
        Self::push_transaction(&mut ops, data_phase, payload);
        assert(ops@ =~= transaction_ops(data_phase, payload));
        self.script = Script { ops, pc: 0, fault: None };
        proof {
            lemma_framed_transaction(data_phase, payload);
        }
    }

    /// Start sending a command, then its parameters one byte per transaction.
    ///
    /// This framing is load-bearing: the panel is used to seeing CS rise
    /// between parameter bytes, and shows nothing when it is held low across
    /// them.
    pub fn command(&mut self, command: u8, params: &[u8])
        ensures
            final(self).run() == begin(command_ops(command, params@)),
            final(self).run().wf(),
            final(self).frame == old(self).frame,
            final(self).spi == old(self).spi,
            final(self).dc == old(self).dc,
            final(self).cs == old(self).cs,
            final(self).rst == old(self).rst,
    {
        let mut ops: Vec<Action> = Vec::new();
        Self::push_command(&mut ops, command, params);
        assert(ops@ =~= command_ops(command, params@));
        self.script = Script { ops, pc: 0, fault: None };
        proof {
            lemma_framed_command(command, params@);
        }
    }

    /// Start the hardware reset, the power-on sequence and the first, blank
    /// frame. Performing its steps to the end leaves the display on.
    pub fn init(&mut self)
        ensures
            final(self).run() == begin(init_ops()),
            final(self).run().wf(),
            final(self).frame == old(self).frame,
            final(self).spi == old(self).spi,
            final(self).dc == old(self).dc,
            final(self).cs == old(self).cs,
            final(self).rst == old(self).rst,
    {
        let mut ops: Vec<Action> = vec![
            Action::CsHigh,
            Action::RstHigh,
            Action::DelayMs(50),
            Action::RstLow,
            Action::DelayMs(20),
            Action::RstHigh,
            Action::DelayMs(50),
        ];
        assert(ops@ =~= reset_ops());
        let power = power_commands();
        Self::commands(&mut ops, &power, Ghost(power_table()));
        Self::push_command(&mut ops, SLEEP_OUT, &[]);
        assert(([0u8; 0])@ =~= Seq::<u8>::empty());
        ops.push(Action::DelayMs(200));
        let wake = wake_commands();
        Self::commands(&mut ops, &wake, Ghost(wake_table()));
        ops.push(Action::Blank);
        Self::shipping(&mut ops);
        assert(ops@ =~= init_ops());
        self.script = Script { ops, pc: 0, fault: None };
        proof {
            law_operations_are_framed();
        }
    }

    /// Start shipping the whole frame.
    pub fn flush(&mut self)
        ensures
            final(self).run() == begin(flush_ops()),
            final(self).run().wf(),
            final(self).frame == old(self).frame,
            final(self).spi == old(self).spi,
            final(self).dc == old(self).dc,
            final(self).cs == old(self).cs,
            final(self).rst == old(self).rst,
    {
        let mut ops: Vec<Action> = Vec::new();
        Self::shipping(&mut ops);
        assert(ops@ =~= flush_ops());
        self.script = Script { ops, pc: 0, fault: None };
        proof {
            law_operations_are_framed();
        }
    }

    /// What to do next.
    pub fn step(&self) -> (step: Step)
        requires
            self.run().wf(),
        ensures
            step == (if self.run().done() {
                Step::Done(self.run().result())
            } else {
                Step::Do(self.run().ops[self.run().pc])
            }),
            step != Step::Do(Action::Blank),
    {
        if self.script.pc < self.script.ops.len() {
            Step::Do(self.script.ops[self.script.pc])
        } else {
            match self.script.fault {
                Some(error) => Step::Done(Err(error)),
                None => Step::Done(Ok(())),
            }
        }
    }

    /// Report whether the current action worked.
    pub fn report(&mut self, ok: bool)
        requires
            old(self).run().wf(),
            !old(self).run().done(),
        ensures
            final(self).run() == old(self).run().after(ok),
            final(self).run().wf(),
            final(self).frame@ == (if old(self).run().blanks(ok) {
                Set::<(int, int)>::empty()
            } else {
                old(self).frame@
            }),
            final(self).spi == old(self).spi,
            final(self).dc == old(self).dc,
            final(self).cs == old(self).cs,
            final(self).rst == old(self).rst,
    {
        proof {
            lemma_after_keeps_wf(self.run(), ok);
            assert(in_place(self.run().ops, self.run().pc));
        }
        let pc: usize = self.script.pc;
        let len: usize = self.script.ops.len();
        if self.script.fault.is_some() {
            self.script.pc = len;
            return;
        }
        let fault: Option<Error> = if ok {
            None
        } else {
            match self.script.ops[pc] {
                Action::SendByte(_) | Action::SendFrame => Some(Error::Spi),
                Action::DelayMs(_) => None,
                _ => Some(Error::Gpio),
            }
        };
        if fault.is_none() {
            self.script.pc = pc + 1;
            if pc + 1 < len {
                if let Action::Blank = self.script.ops[pc + 1] {
                    self.clear(BinaryColor::Off);
                    self.script.pc = pc + 2;
                }
            }
            return;
        }
        self.script.fault = fault;
        self.script.pc = match self.script.ops[pc] {
            Action::DcLow | Action::DcHigh => pc + 2,
            Action::SendByte(_) | Action::SendFrame => pc + 1,
            _ => len,
        };
    }

    /// Fill the frame without touching the panel.
    pub fn clear(&mut self, color: BinaryColor)
        ensures
            final(self).frame@ == (if color == BinaryColor::On {
                crate::frame::whole_screen()
            } else {
                Set::<(int, int)>::empty()
            }),
            final(self).run() == old(self).run(),
            final(self).spi == old(self).spi,
            final(self).dc == old(self).dc,
            final(self).cs == old(self).cs,
            final(self).rst == old(self).rst,
    {
        self.frame.clear(color);
    }

    /// Draw pixels one after the other in the frame, without touching the panel.
    /// Those off the screen are ignored.
    pub fn draw_iter(&mut self, pixels: &[(i32, i32, BinaryColor)])
        ensures
            final(self).frame@ == paint_each(old(self).frame@, pixels@),
            final(self).run() == old(self).run(),
            final(self).spi == old(self).spi,
            final(self).dc == old(self).dc,
            final(self).cs == old(self).cs,
            final(self).rst == old(self).rst,
    {
        self.frame.draw_iter(pixels);
    }

    /// The underlying bus, for reconfiguring clock rate or mode after
    /// construction. Reinitialise the panel after changing either.
    pub fn bus(&mut self) -> (bus: &mut SPI)
        ensures
            *bus == old(self).spi,
            final(self).spi == *final(bus),
            final(self).run() == old(self).run(),
            final(self).frame == old(self).frame,
            final(self).dc == old(self).dc,
            final(self).cs == old(self).cs,
            final(self).rst == old(self).rst,
    {
        &mut self.spi
    }

    /// Width and height in pixels.
    pub fn size(&self) -> (size: (u32, u32))
        ensures
            size == (400u32, 300u32),
    {
        (WIDTH, HEIGHT)
    }
}

} // verus!
