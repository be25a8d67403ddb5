//! SCD41 carbon dioxide, temperature and humidity sensor.
//!
//! Starting it and polling it are described step by step: a stage says what to
//! do on the bus, and [`poll_scd41`] and [`start_periodic`] say what to do after
//! the reply.

use vstd::prelude::*;

use crate::bus::{word_of, BusOp};

verus! {

use crate::bus::word_at;

pub const SCD41_ADDR: u8 = 0x62;

/// Where a poll went wrong.
#[derive(Clone, Copy, Debug, PartialEq, Eq, Structural)]
pub enum Fault {
    /// Asking whether a sample is ready.
    DrWrite,
    /// Reading whether a sample is ready.
    DrRead,
    /// Asking for the sample.
    RmWrite,
    /// Reading the sample.
    RmRead,
    /// The sensor did not start, so it was not polled.
    NoSensor,
}

/// How a fault is shown.
pub open spec fn fault_text(fault: Fault) -> Seq<char> {
    match fault {
        Fault::DrWrite => "DR write"@,
        Fault::DrRead => "DR read"@,
        Fault::RmWrite => "RM write"@,
        Fault::RmRead => "RM read"@,
        Fault::NoSensor => "no sensor"@,
    }
}

impl Fault {
    /// How this fault is shown.
    pub fn stage(&self) -> (s: &'static str)
        ensures
            s@ == fault_text(*self),
    {
        match self {
            Fault::DrWrite => "DR write",
            Fault::DrRead => "DR read",
            Fault::RmWrite => "RM write",
            Fault::RmRead => "RM read",
            Fault::NoSensor => "no sensor",
        }
    }
}

/// What a poll brought.
#[derive(Clone, Copy, Debug, PartialEq, Eq, Structural)]
pub enum Sample {
    Measured {
        /// Parts per million.
        co2: u16,
        /// Temperature, -45 to 130 degrees Celsius over the whole range.
        temp_raw: u16,
        /// Relative humidity, 0 to 100 percent over the whole range.
        hum_raw: u16,
    },
    NotReady,
    Error(Fault),
}

/// What part of a poll is under way.
#[derive(Clone, Copy, Debug, PartialEq, Eq, Structural)]
pub enum PollStage {
    AskReady,
    ReadyPause,
    FetchReady,
    AskSample,
    SamplePause,
    FetchSample,
}

/// How a request to the bus ended.
#[derive(Clone, Copy, Debug, PartialEq, Eq)]
pub enum Reply {
    Done,
    Failed,
    /// The readiness word and its checksum.
    Ready([u8; 3]),
    /// Three words, each with its checksum.
    Sample([u8; 9]),
}

/// What to do after a request of a poll.
#[derive(Clone, Copy, Debug, PartialEq, Eq, Structural)]
pub enum PollNext {
    Go(PollStage),
    Finished(Sample),
}

/// What a stage does on the bus.
pub open spec fn poll_op(stage: PollStage) -> BusOp {
    match stage {
        PollStage::AskReady => BusOp::Write { addr: 0x62, word: [0xE4, 0xB8] },
        PollStage::ReadyPause => BusOp::DelayMs(2),
        PollStage::FetchReady => BusOp::Read { addr: 0x62, len: 3 },
        PollStage::AskSample => BusOp::Write { addr: 0x62, word: [0xEC, 0x05] },
        PollStage::SamplePause => BusOp::DelayMs(2),
        PollStage::FetchSample => BusOp::Read { addr: 0x62, len: 9 },
    }
}

/// Whether the readiness word announces a sample: any of its low eleven bits.
pub open spec fn is_ready(word: u16) -> bool {
    word as int % 2048 != 0
}

/// The sample in nine bytes. The checksums are not looked at.
pub open spec fn sample_in(raw: Seq<u8>) -> Sample {
    Sample::Measured { co2: word_at(raw, 0), temp_raw: word_at(raw, 3), hum_raw: word_at(raw, 6) }
}

/// What happens after a stage's request ended with `reply`.
pub open spec fn after_poll(stage: PollStage, reply: Reply) -> PollNext {
    match stage {
        PollStage::AskReady => if reply is Failed {
            PollNext::Finished(Sample::Error(Fault::DrWrite))
        } else {
            PollNext::Go(PollStage::ReadyPause)
        },
        PollStage::ReadyPause => PollNext::Go(PollStage::FetchReady),
        PollStage::FetchReady => match reply {
            Reply::Ready(raw) => if is_ready(word_at(raw@, 0)) {
                PollNext::Go(PollStage::AskSample)
            } else {
                PollNext::Finished(Sample::NotReady)
            },
            _ => PollNext::Finished(Sample::Error(Fault::DrRead)),
        },
        PollStage::AskSample => if reply is Failed {
            PollNext::Finished(Sample::Error(Fault::RmWrite))
        } else {
            PollNext::Go(PollStage::SamplePause)
        },
        PollStage::SamplePause => PollNext::Go(PollStage::FetchSample),
        PollStage::FetchSample => PollNext::Finished(
            match reply {
                Reply::Sample(raw) => sample_in(raw@),
                _ => Sample::Error(Fault::RmRead),
            },
        ),
    }
}

impl PollStage {
    /// What this stage does on the bus.
    pub fn op(&self) -> (op: BusOp)
        ensures
            op == poll_op(*self),
    {
        match self {
            PollStage::AskReady => BusOp::Write { addr: SCD41_ADDR, word: [0xE4, 0xB8] },
            PollStage::ReadyPause => BusOp::DelayMs(2),
            PollStage::FetchReady => BusOp::Read { addr: SCD41_ADDR, len: 3 },
            PollStage::AskSample => BusOp::Write { addr: SCD41_ADDR, word: [0xEC, 0x05] },
            PollStage::SamplePause => BusOp::DelayMs(2),
            PollStage::FetchSample => BusOp::Read { addr: SCD41_ADDR, len: 9 },
        }
    }
}

/// Poll the sensor: what to do after a stage. A poll starts in
/// [`PollStage::AskReady`].
pub fn poll_scd41(stage: PollStage, reply: Reply) -> (next: PollNext)
    ensures
        next == after_poll(stage, reply),
        (stage == PollStage::FetchSample && reply is Sample) ==> next == PollNext::Finished(
            Sample::Measured {
                co2: (256 * reply->Sample_0[0] + reply->Sample_0[1]) as u16,
                temp_raw: (256 * reply->Sample_0[3] + reply->Sample_0[4]) as u16,
                hum_raw: (256 * reply->Sample_0[6] + reply->Sample_0[7]) as u16,
            },
        ),
{
    let failed = matches!(reply, Reply::Failed);
    match stage {
        PollStage::AskReady => {
            if failed {
                PollNext::Finished(Sample::Error(Fault::DrWrite))
            } else {
                PollNext::Go(PollStage::ReadyPause)
            }
        },
        PollStage::ReadyPause => PollNext::Go(PollStage::FetchReady),
        PollStage::FetchReady => match reply {
            Reply::Ready(raw) => {
                let ready_word: u16 = word_of(raw[0], raw[1]);
                assert(ready_word & 0x07FF == ready_word % 2048) by (bit_vector);
                if ready_word & 0x07FF == 0 {
                    PollNext::Finished(Sample::NotReady)
                } else {
                    PollNext::Go(PollStage::AskSample)
                }
            },
            _ => PollNext::Finished(Sample::Error(Fault::DrRead)),
        },
        PollStage::AskSample => {
            if failed {
                PollNext::Finished(Sample::Error(Fault::RmWrite))
            } else {
                PollNext::Go(PollStage::SamplePause)
            }
        },
        PollStage::SamplePause => PollNext::Go(PollStage::FetchSample),
        PollStage::FetchSample => match reply {
            Reply::Sample(raw) => PollNext::Finished(
                Sample::Measured {
                    co2: word_of(raw[0], raw[1]),
                    temp_raw: word_of(raw[3], raw[4]),
                    hum_raw: word_of(raw[6], raw[7]),
                },
            ),
            _ => PollNext::Finished(Sample::Error(Fault::RmRead)),
        },
    }
}

/// What part of starting the sensor is under way.
#[derive(Clone, Copy, Debug, PartialEq, Eq, Structural)]
pub enum StartStage {
    WakeUp,
    WakePause,
    StopPeriodic,
    StopPause,
    StartPeriodic,
}

/// What to do after a request of a start.
#[derive(Clone, Copy, Debug, PartialEq, Eq, Structural)]
pub enum StartNext {
    Go(StartStage),
    /// Whether the sensor is measuring.
    Finished(bool),
}

/// What a stage does on the bus.
pub open spec fn start_op(stage: StartStage) -> BusOp {
    match stage {
        StartStage::WakeUp => BusOp::Write { addr: 0x62, word: [0x36, 0xF6] },
        StartStage::WakePause => BusOp::DelayMs(30),
        StartStage::StopPeriodic => BusOp::Write { addr: 0x62, word: [0x3F, 0x86] },
        StartStage::StopPause => BusOp::DelayMs(500),
        StartStage::StartPeriodic => BusOp::Write { addr: 0x62, word: [0x21, 0xB1] },
    }
}

/// What happens after a stage's request went through or did not. Only the last
/// one decides: a sensor that is awake ignores the wake-up, and one that is idle
/// ignores the stop.
pub open spec fn after_start(stage: StartStage, ok: bool) -> StartNext {
    match stage {
        StartStage::WakeUp => StartNext::Go(StartStage::WakePause),
        StartStage::WakePause => StartNext::Go(StartStage::StopPeriodic),
        StartStage::StopPeriodic => StartNext::Go(StartStage::StopPause),
        StartStage::StopPause => StartNext::Go(StartStage::StartPeriodic),
        StartStage::StartPeriodic => StartNext::Finished(ok),
    }
}

impl StartStage {
    /// What this stage does on the bus.
    pub fn op(&self) -> (op: BusOp)
        ensures
            op == start_op(*self),
    {
        match self {
            StartStage::WakeUp => BusOp::Write { addr: SCD41_ADDR, word: [0x36, 0xF6] },
            StartStage::WakePause => BusOp::DelayMs(30),
            StartStage::StopPeriodic => BusOp::Write { addr: SCD41_ADDR, word: [0x3F, 0x86] },
            StartStage::StopPause => BusOp::DelayMs(500),
            StartStage::StartPeriodic => BusOp::Write { addr: SCD41_ADDR, word: [0x21, 0xB1] },
        }
    }
}

/// Start periodic measurement: what to do after a stage. A start begins in
/// [`StartStage::WakeUp`].
pub fn start_periodic(stage: StartStage, ok: bool) -> (next: StartNext)
    ensures
        next == after_start(stage, ok),
{
    match stage {
        StartStage::WakeUp => StartNext::Go(StartStage::WakePause),
        StartStage::WakePause => StartNext::Go(StartStage::StopPeriodic),
        StartStage::StopPeriodic => StartNext::Go(StartStage::StopPause),
        StartStage::StopPause => StartNext::Go(StartStage::StartPeriodic),
        StartStage::StartPeriodic => StartNext::Finished(ok),
    }
}

/// Where a poll stands after its requests ended with `replies`.
pub open spec fn poll_through(replies: Seq<Reply>) -> PollNext
    decreases replies.len(),
{
    if replies.len() == 0 {
        PollNext::Go(PollStage::AskReady)
    } else {
        match poll_through(replies.drop_last()) {
            PollNext::Go(stage) => after_poll(stage, replies.last()),
            over => over,
        }
    }
}

/// Where a start stands after its requests ended as `oks` says, and what it
/// asked of the bus on the way.
pub open spec fn start_through(oks: Seq<bool>) -> (StartNext, Seq<BusOp>)
    decreases oks.len(),
{
    if oks.len() == 0 {
        (StartNext::Go(StartStage::WakeUp), Seq::empty())
    } else {
        let (next, ops) = start_through(oks.drop_last());
        match next {
            StartNext::Go(stage) => (after_start(stage, oks.last()), ops.push(start_op(stage))),
            StartNext::Finished(_) => (next, ops),
        }
    }
}

/// A poll takes at most six requests, and each of its outcomes has one cause:
/// the sample of a poll in which everything went through, the first request that
/// failed, or a sensor without a sample.
pub proof fn law_poll_outcomes(replies: Seq<Reply>)
    requires
        replies.len() == 6,
    ensures
        poll_through(replies) == PollNext::Finished(
            if replies[0] is Failed {
                Sample::Error(Fault::DrWrite)
            } else if !(replies[2] is Ready) {
                Sample::Error(Fault::DrRead)
            } else if !is_ready(word_at(replies[2]->Ready_0@, 0)) {
                Sample::NotReady
            } else if replies[3] is Failed {
                Sample::Error(Fault::RmWrite)
            } else if !(replies[5] is Sample) {
                Sample::Error(Fault::RmRead)
            } else {
                sample_in(replies[5]->Sample_0@)
            },
        ),
{
    let r5 = replies.drop_last();
    let r4 = r5.drop_last();
    let r3 = r4.drop_last();
    let r2 = r3.drop_last();
    let r1 = r2.drop_last();
    let r0 = r1.drop_last();
    assert(poll_through(r0) == PollNext::Go(PollStage::AskReady));
    assert(poll_through(r1) == after_poll(PollStage::AskReady, replies[0]));
    if !(replies[0] is Failed) {
        assert(poll_through(r2) == PollNext::Go(PollStage::FetchReady));
        assert(poll_through(r3) == after_poll(PollStage::FetchReady, replies[2]));
    } else {
        assert(poll_through(r2) == poll_through(r1));
        assert(poll_through(r3) == poll_through(r1));
    }
    match poll_through(r3) {
        PollNext::Go(stage) => {
            assert(stage == PollStage::AskSample);
            assert(poll_through(r4) == after_poll(PollStage::AskSample, replies[3]));
            if !(replies[3] is Failed) {
                assert(poll_through(r5) == PollNext::Go(PollStage::FetchSample));
            } else {
                assert(poll_through(r5) == poll_through(r4));
            }
        },
        PollNext::Finished(_) => {
            assert(poll_through(r4) == poll_through(r3));
            assert(poll_through(r5) == poll_through(r3));
        },
    }
}

/// A poll never reports the sensor as missing: that is for a sensor that was not
/// polled.
pub proof fn law_polled_sensor_is_not_missing(stage: PollStage, reply: Reply)
    ensures
        after_poll(stage, reply) != PollNext::Finished(Sample::Error(Fault::NoSensor)),
{
}

/// Starting the sensor always goes through the same five requests, and whether
/// it is measuring is decided by the last one alone.
pub proof fn law_start_is_decided_by_its_last_request(oks: Seq<bool>)
    requires
        oks.len() == 5,
    ensures
        start_through(oks).0 == StartNext::Finished(oks[4]),
        start_through(oks).1 == seq![
            BusOp::Write { addr: 0x62, word: [0x36, 0xF6] },
            BusOp::DelayMs(30),
            BusOp::Write { addr: 0x62, word: [0x3F, 0x86] },
            BusOp::DelayMs(500),
            BusOp::Write { addr: 0x62, word: [0x21, 0xB1] },
        ],
{
    let r4 = oks.drop_last();
    let r3 = r4.drop_last();
    let r2 = r3.drop_last();
    let r1 = r2.drop_last();
    let r0 = r1.drop_last();
    assert(start_through(r0).0 == StartNext::Go(StartStage::WakeUp));
    assert(start_through(r1).0 == StartNext::Go(StartStage::WakePause));
    assert(start_through(r2).0 == StartNext::Go(StartStage::StopPeriodic));
    assert(start_through(r3).0 == StartNext::Go(StartStage::StopPause));
    assert(start_through(r4).0 == StartNext::Go(StartStage::StartPeriodic));
}

/// A sample is the three words of the reply, first byte first: carbon dioxide,
/// temperature, humidity. Every value of every word comes through.
pub proof fn law_sample_is_in_the_bytes(raw: Seq<u8>)
    ensures
        sample_in(raw) is Measured,
        sample_in(raw)->co2 == 256 * raw[0] + raw[1],
        sample_in(raw)->temp_raw == 256 * raw[3] + raw[4],
        sample_in(raw)->hum_raw == 256 * raw[6] + raw[7],
{
}

/// A poll in which everything went through gives the words of its last reply, and
/// only such a poll gives a sample.
pub proof fn law_poll_gives_what_was_read(replies: Seq<Reply>, co2: u16, temp_raw: u16, hum_raw: u16)
    requires
        replies.len() == 6,
    ensures
        poll_through(replies) == PollNext::Finished(Sample::Measured { co2, temp_raw, hum_raw })
            <==> {
            &&& !(replies[0] is Failed)
            &&& replies[2] is Ready
            &&& (256 * replies[2]->Ready_0[0] + replies[2]->Ready_0[1]) % 2048 != 0
            &&& !(replies[3] is Failed)
            &&& replies[5] is Sample
            &&& co2 == 256 * replies[5]->Sample_0[0] + replies[5]->Sample_0[1]
            &&& temp_raw == 256 * replies[5]->Sample_0[3] + replies[5]->Sample_0[4]
            &&& hum_raw == 256 * replies[5]->Sample_0[6] + replies[5]->Sample_0[7]
        },
{
    law_poll_outcomes(replies);
}

/// A poll without a sample says why: the request that failed first, or a readiness
/// word whose low eleven bits are all clear.
pub proof fn law_poll_says_why(replies: Seq<Reply>)
    requires
        replies.len() == 6,
    ensures
        ({
            let asked = !(replies[0] is Failed);
            let heard = asked && replies[2] is Ready;
            let word = 256 * replies[2]->Ready_0[0] + replies[2]->Ready_0[1];
            let ready = heard && word % 2048 != 0;
            let requested = ready && !(replies[3] is Failed);
            let end = poll_through(replies);
            &&& end == PollNext::Finished(Sample::Error(Fault::DrWrite)) <==> !asked
            &&& end == PollNext::Finished(Sample::Error(Fault::DrRead)) <==> asked && !heard
            &&& end == PollNext::Finished(Sample::NotReady) <==> heard && !ready
            &&& end == PollNext::Finished(Sample::Error(Fault::RmWrite)) <==> ready && !requested
            &&& end == PollNext::Finished(Sample::Error(Fault::RmRead)) <==> requested && !(
            replies[5] is Sample)
        }),
{
    law_poll_outcomes(replies);
}

/// What a poll asks of the bus: whether a sample is ready, two milliseconds, three
/// bytes; then the sample, two milliseconds, nine bytes.
pub proof fn law_poll_on_the_bus(stage: PollStage, reply: Reply)
    ensures
        match poll_op(stage) {
            BusOp::Write { addr, word } => addr == 0x62 && (stage == PollStage::AskReady && word
                == [0xE4u8, 0xB8u8] || stage == PollStage::AskSample && word == [0xECu8, 0x05u8]),
            BusOp::Read { addr, len } => addr == 0x62 && (stage == PollStage::FetchReady && len
                == 3 || stage == PollStage::FetchSample && len == 9),
            BusOp::DelayMs(ms) => ms == 2 && (stage == PollStage::ReadyPause || stage
                == PollStage::SamplePause),
        },
        after_poll(stage, reply) matches PollNext::Go(next) ==> match next {
            PollStage::AskReady => false,
            PollStage::ReadyPause => stage == PollStage::AskReady,
            PollStage::FetchReady => stage == PollStage::ReadyPause,
            PollStage::AskSample => stage == PollStage::FetchReady,
            PollStage::SamplePause => stage == PollStage::AskSample,
            PollStage::FetchSample => stage == PollStage::SamplePause,
        },
{
}

/// Faults read differently, and as what the sensor was being asked.
pub proof fn law_faults_read_differently(a: Fault, b: Fault)
    ensures
        fault_text(a) == fault_text(b) <==> a == b,
        fault_text(Fault::DrWrite) == seq!['D', 'R', ' ', 'w', 'r', 'i', 't', 'e'],
        fault_text(Fault::DrRead) == seq!['D', 'R', ' ', 'r', 'e', 'a', 'd'],
        fault_text(Fault::RmWrite) == seq!['R', 'M', ' ', 'w', 'r', 'i', 't', 'e'],
        fault_text(Fault::RmRead) == seq!['R', 'M', ' ', 'r', 'e', 'a', 'd'],
        fault_text(Fault::NoSensor) == seq!['n', 'o', ' ', 's', 'e', 'n', 's', 'o', 'r'],
{
    reveal_strlit("DR write");
    reveal_strlit("DR read");
    reveal_strlit("RM write");
    reveal_strlit("RM read");
    reveal_strlit("no sensor");
    let x = fault_text(a);
    let y = fault_text(b);
    assert(fault_text(Fault::DrWrite)[0] == 'D');
    assert(fault_text(Fault::RmWrite)[0] == 'R');
    assert(fault_text(Fault::DrRead)[0] == 'D');
    assert(fault_text(Fault::RmRead)[0] == 'R');
    assert(a != b ==> x.len() != y.len() || x[0] != y[0]);
}

} // verus!
