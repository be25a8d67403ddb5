//! The air monitor's loop: what a poll of the sensor means for the readout, and
//! when the sensor has to be started again.

use vstd::prelude::*;

use crate::influx::sample_line;
use crate::scd41::Fault;
use crate::text::{to_decimal, Line, Number};

verus! {

use crate::influx::{law_record_reads_back, sample_record};
use crate::scd41::fault_text;
use crate::text::{
    bounded,
    byte_len,
    decimal,
    joined,
    law_decimal_reads_back,
    law_line_holds_what_fits,
    law_line_is_a_prefix,
    lemma_ascii_byte_len,
    lemma_decimal_len,
    lemma_four_pieces,
    lemma_joined_concat,
    lemma_number_widths,
    lemma_one_piece,
    lemma_three_pieces,
    number_of,
};

/// So many errors in a row have the sensor started again.
pub const REINIT_AFTER: u32 = 3;

/// A measured sample, its numbers with a fraction in decimal as they are shown and
/// sent.
pub struct Readout {
    /// Parts per million.
    pub co2: u16,
    /// Degrees Celsius, one decimal.
    pub temp_shown: Number,
    /// Relative humidity, rounded to a whole number.
    pub hum_shown: Number,
    /// Degrees Celsius, two decimals.
    pub temp_sent: Number,
    /// Relative humidity, two decimals.
    pub hum_sent: Number,
}

/// What a poll brought.
pub enum Polled {
    Measured(Readout),
    NotReady,
    Error(Fault),
}

/// What has to be done before the readout is drawn.
pub enum Action {
    Nothing,
    /// Send this record. What comes of it is the third line of the readout.
    Post(String),
    /// Start the sensor again.
    Reinit,
}

/// The first two lines of the readout, and what has to be done. The third line
/// is empty unless a record is sent.
pub struct Reaction {
    pub l1: String,
    pub l2: String,
    pub action: Action,
}

/// What is under which name in the database.
pub struct Series {
    pub measurement: String,
    pub tags: String,
}

/// First line for a measured sample.
pub open spec fn co2_text(co2: u16) -> Seq<char> {
    "CO2 "@ + decimal(co2 as nat) + " ppm"@
}

/// Second line for a measured sample.
pub open spec fn climate_text(temp: Seq<Seq<char>>, hum: Seq<Seq<char>>) -> Seq<char> {
    bounded(seq!["T "@] + temp + seq!["C H "@] + hum + seq!["%"@], 24)
}

/// Second line for an error, the latest of so many in a row.
pub open spec fn streak_text(fault: Fault, streak: nat) -> Seq<char> {
    "@"@ + fault_text(fault) + " x"@ + decimal(streak)
}

/// The first two lines of the readout.
pub open spec fn lines_of(polled: Polled, streak: nat) -> (Seq<char>, Seq<char>) {
    match polled {
        Polled::Measured(r) => (co2_text(r.co2), climate_text(r.temp_shown@, r.hum_shown@)),
        Polled::NotReady => ("SCD41 wait"@, "warming up"@),
        Polled::Error(fault) => ("SCD41 ERR"@, streak_text(fault, streak)),
    }
}

/// The streak of errors after one more poll: a sample ends it, and a sensor that
/// is warming up neither ends nor lengthens it.
pub open spec fn streak_after(streak: nat, polled: Polled) -> nat {
    match polled {
        Polled::Measured(_) => 0,
        Polled::NotReady => streak,
        Polled::Error(_) => streak + 1,
    }
}

/// Whether a poll has the sensor started again, after so many errors in a row.
pub open spec fn restarts(streak: nat, polled: Polled) -> bool {
    polled is Error && streak + 1 >= REINIT_AFTER
}

/// The record that a poll has sent.
pub open spec fn record_of(polled: Polled, series: Series) -> Option<Seq<char>> {
    match polled {
        Polled::Measured(r) => Some(
            bounded(
                sample_record(
                    series.measurement@,
                    series.tags@,
                    r.co2,
                    r.temp_sent@,
                    r.hum_sent@,
                ),
                192,
            ),
        ),
        _ => None,
    }
}

/// The loop's state between two polls.
pub struct Monitor {
    /// Whether the sensor was started.
    pub have_sensor: bool,
    /// Errors since the last sample, or since the sensor was last started again.
    pub consecutive_err: u32,
}

fn co2_line(co2: u16) -> (line: String)
    ensures
        line@ == co2_text(co2),
{
    let number = to_decimal(co2 as u32);
    let line: Line<24> = Line::new().put("CO2 ").put(number.as_str()).put(" ppm");
    proof {
        reveal_strlit("CO2 ");
        reveal_strlit(" ppm");
        lemma_ascii_byte_len("CO2 "@);
        lemma_ascii_byte_len(" ppm"@);
        lemma_number_widths();
        lemma_decimal_len(co2 as nat, 5);
        lemma_three_pieces("CO2 "@, number@, " ppm"@, 24);
        assert(line@ =~= seq!["CO2 "@, number@, " ppm"@]);
    }
    line.finish()
}

fn climate_line(temp: &Number, hum: &Number) -> (line: String)
    ensures
        line@ == climate_text(temp@, hum@),
{
    let line: Line<24> = Line::new().put("T ").put_number(temp).put("C H ").put_number(hum).put(
        "%",
    );
    assert(line@ =~= seq!["T "@] + temp@ + seq!["C H "@] + hum@ + seq!["%"@]);
    line.finish()
}

fn streak_line(fault: Fault, streak: u32) -> (line: String)
    requires
        streak < 100_000,
    ensures
        line@ == streak_text(fault, streak as nat),
{
    let stage = fault.stage();
    let number = to_decimal(streak);
    let line: Line<24> = Line::new().put("@").put(stage).put(" x").put(number.as_str());
    proof {
        reveal_strlit("@");
        reveal_strlit(" x");
        reveal_strlit("DR write");
        reveal_strlit("DR read");
        reveal_strlit("RM write");
        reveal_strlit("RM read");
        reveal_strlit("no sensor");
        lemma_ascii_byte_len("@"@);
        lemma_ascii_byte_len(" x"@);
        lemma_ascii_byte_len(stage@);
        lemma_number_widths();
        lemma_decimal_len(streak as nat, 5);
        lemma_four_pieces("@"@, stage@, " x"@, number@, 24);
        assert(line@ =~= seq!["@"@, stage@, " x"@, number@]);
    }
    line.finish()
}

/// A line of the readout that is always the same.
fn fixed_line(text: &str) -> (line: String)
    requires
        byte_len(text@) <= 24,
    ensures
        line@ == text@,
{
    let line: Line<24> = Line::new().put(text);
    proof {
        lemma_one_piece(text@, 24);
        assert(line@ =~= seq![text@]);
    }
    line.finish()
}

impl Monitor {
    /// Between two polls the streak is short of the limit.
    pub open spec fn wf(self) -> bool {
        self.consecutive_err < REINIT_AFTER
    }

    /// The loop begins after the sensor was started, or was not.
    pub fn new(have_sensor: bool) -> (this: Self)
        ensures
            this.wf(),
            this.have_sensor == have_sensor,
            this.consecutive_err == 0,
    {
        Monitor { have_sensor, consecutive_err: 0 }
    }

    /// What counts as polled when the sensor was not started, or `None` when it
    /// has to be polled.
    pub fn skip_poll(&self) -> (skipped: Option<Polled>)
        ensures
            skipped == (if self.have_sensor {
                None
            } else {
                Some(Polled::Error(Fault::NoSensor))
            }),
    {
        if self.have_sensor {
            None
        } else {
            Some(Polled::Error(Fault::NoSensor))
        }
    }

    /// React to a poll. Where the sensor has to be started again,
    /// [`Monitor::reinitialised`] comes before the next poll.
    pub fn react(&mut self, polled: Polled, series: &Series) -> (reaction: Reaction)
        requires
            old(self).wf(),
        ensures
            final(self).have_sensor == old(self).have_sensor,
            final(self).consecutive_err == streak_after(old(self).consecutive_err as nat, polled),
            (reaction.l1@, reaction.l2@) == lines_of(
                polled,
                final(self).consecutive_err as nat,
            ),
            reaction.action is Reinit <==> restarts(old(self).consecutive_err as nat, polled),
            reaction.action is Post <==> record_of(polled, *series) is Some,
            reaction.action matches Action::Post(record) ==> Some(record@) == record_of(
                polled,
                *series,
            ),
            match polled {
                Polled::Measured(r) => reaction.action matches Action::Post(record) && record@
                    == bounded(
                    sample_record(
                        series.measurement@,
                        series.tags@,
                        r.co2,
                        r.temp_sent@,
                        r.hum_sent@,
                    ),
                    192,
                ),
                Polled::NotReady => reaction.action is Nothing,
                Polled::Error(_) => if final(self).wf() {
                    reaction.action is Nothing
                } else {
                    reaction.action is Reinit
                },
            },
    {
        proof {
            reveal_strlit("SCD41 wait");
            reveal_strlit("warming up");
            reveal_strlit("SCD41 ERR");
            lemma_ascii_byte_len("SCD41 wait"@);
            lemma_ascii_byte_len("warming up"@);
            lemma_ascii_byte_len("SCD41 ERR"@);
        }
        match polled {
            Polled::Measured(r) => {
                self.consecutive_err = 0;
                let record = sample_line(
                    series.measurement.as_str(),
                    series.tags.as_str(),
                    r.co2,
                    &r.temp_sent,
                    &r.hum_sent,
                );
                Reaction {
                    l1: co2_line(r.co2),
                    l2: climate_line(&r.temp_shown, &r.hum_shown),
                    action: Action::Post(record),
                }
            },
            Polled::NotReady => Reaction {
                l1: fixed_line("SCD41 wait"),
                l2: fixed_line("warming up"),
                action: Action::Nothing,
            },
            Polled::Error(fault) => {
                self.consecutive_err = self.consecutive_err + 1;
                Reaction {
                    l1: fixed_line("SCD41 ERR"),
                    l2: streak_line(fault, self.consecutive_err),
                    action: if self.consecutive_err >= REINIT_AFTER {
                        Action::Reinit
                    } else {
                        Action::Nothing
                    },
                }
            },
        }
    }

    /// The sensor was started again, or was not. The streak begins anew either
    /// way.
    pub fn reinitialised(&mut self, ok: bool)
        ensures
            final(self).wf(),
            final(self).have_sensor == ok,
            final(self).consecutive_err == 0,
    {
        self.have_sensor = ok;
        self.consecutive_err = 0;
    }
}

/// The streak after a history of polls, and how often the sensor was started
/// again on the way.
pub open spec fn history(polls: Seq<Polled>) -> (nat, nat)
    decreases polls.len(),
{
    if polls.len() == 0 {
        (0, 0)
    } else {
        let (streak, restarts) = history(polls.drop_last());
        let next = streak_after(streak, polls.last());
        if next >= REINIT_AFTER {
            (0, restarts + 1)
        } else {
            (next, restarts)
        }
    }
}

/// The streak stays short of the limit, whatever the sensor does.
pub proof fn law_streak_is_bounded(polls: Seq<Polled>)
    ensures
        history(polls).0 < REINIT_AFTER,
    decreases polls.len(),
{
    if polls.len() > 0 {
        law_streak_is_bounded(polls.drop_last());
    }
}

/// A sensor that only fails is started again after every third error.
pub proof fn law_failing_sensor_is_restarted(polls: Seq<Polled>)
    requires
        forall|i: int| 0 <= i < polls.len() ==> (#[trigger] polls[i]) is Error,
    ensures
        history(polls).1 == polls.len() / 3,
        history(polls).0 == polls.len() % 3,
    decreases polls.len(),
{
    if polls.len() > 0 {
        let before = polls.drop_last();
        assert forall|i: int| 0 <= i < before.len() implies (#[trigger] before[i]) is Error by {
            assert(before[i] == polls[i]);
        }
        law_failing_sensor_is_restarted(before);
        assert(polls[polls.len() - 1] is Error);
    }
}

/// A sensor whose every error comes right after a sample is never started again.
pub proof fn law_samples_prevent_restarts(polls: Seq<Polled>)
    requires
        forall|i: int|
            0 < i < polls.len() && (#[trigger] polls[i]) is Error ==> polls[i - 1] is Measured,
    ensures
        history(polls).1 == 0,
        history(polls).0 <= 1,
        polls.len() > 0 && polls.last() is Measured ==> history(polls).0 == 0,
    decreases polls.len(),
{
    if polls.len() > 0 {
        let before = polls.drop_last();
        assert forall|i: int| 0 < i < before.len() && (#[trigger] before[i]) is Error implies before[
            i - 1
        ] is Measured by {
            assert(before[i] == polls[i]);
        }
        law_samples_prevent_restarts(before);
        assert(polls.last() == polls[polls.len() - 1]);
        if polls.last() is Error && before.len() > 0 {
            assert(before.last() == polls[polls.len() - 2]);
        }
    }
}


/// The readout: each line with the row it is drawn in, from the left edge.
pub fn render<'a>(l1: &'a str, l2: &'a str, l3: &'a str) -> (labels: [(&'a str, i32); 3])
    ensures
        labels[0] == (l1, 0i32),
        labels[1] == (l2, 22i32),
        labels[2] == (l3, 44i32),
{
    [(l1, 0), (l2, 22), (l3, 44)]
}

/// A measured sample is shown with its carbon dioxide and, as long as they fit, its
/// temperature and humidity as they are.
pub proof fn law_sample_is_shown(r: Readout, streak: nat)
    ensures
        ({
            let (l1, l2) = lines_of(Polled::Measured(r), streak);
            let n = l1.len() as int;
            let climate = "T "@ + joined(r.temp_shown@) + "C H "@ + joined(r.hum_shown@) + "%"@;
            &&& l1.take(4) == "CO2 "@
            &&& number_of(l1.subrange(4, n - 4)) == r.co2
            &&& l1.skip(n - 4) == " ppm"@
            &&& l2.is_prefix_of(climate)
            &&& byte_len(climate) <= 24 ==> l2 == climate
        }),
{
    reveal_strlit("CO2 ");
    reveal_strlit(" ppm");
    law_decimal_reads_back(r.co2 as nat);
    let (l1, l2) = lines_of(Polled::Measured(r), streak);
    let n = l1.len() as int;
    assert(l1.take(4) =~= "CO2 "@);
    assert(l1.subrange(4, n - 4) =~= decimal(r.co2 as nat));
    assert(l1.skip(n - 4) =~= " ppm"@);
    let (temp, hum) = (r.temp_shown@, r.hum_shown@);
    let a = seq!["T "@];
    let b = seq!["C H "@];
    let c = seq!["%"@];
    lemma_joined_one("T "@);
    lemma_joined_one("C H "@);
    lemma_joined_one("%"@);
    lemma_joined_concat(a, temp);
    lemma_joined_concat(a + temp, b);
    lemma_joined_concat(a + temp + b, hum);
    lemma_joined_concat(a + temp + b + hum, c);
    let pieces = a + temp + b + hum + c;
    law_line_is_a_prefix(pieces, 24);
    if byte_len(joined(pieces)) <= 24 {
        law_line_holds_what_fits(pieces, 24);
    }
}

proof fn lemma_joined_one(piece: Seq<char>)
    ensures
        joined(seq![piece]) == piece,
{
    assert(seq![piece].drop_last() =~= Seq::<Seq<char>>::empty());
    assert(joined(Seq::<Seq<char>>::empty()) =~= Seq::<char>::empty());
    assert(joined(seq![piece]) =~= piece);
}

/// An error is shown with where it happened and its number in the streak, and a sensor
/// without a sample as warming up.
pub proof fn law_error_is_shown(fault: Fault, streak: nat)
    ensures
        ({
            let (l1, l2) = lines_of(Polled::Error(fault), streak);
            let n = fault_text(fault).len() as int;
            &&& l1 == "SCD41 ERR"@
            &&& l2[0] == '@'
            &&& l2.subrange(1, n + 1) == fault_text(fault)
            &&& l2.subrange(n + 1, n + 3) == seq![' ', 'x']
            &&& number_of(l2.skip(n + 3)) == streak
        }),
        lines_of(Polled::NotReady, streak) == ("SCD41 wait"@, "warming up"@),
{
    reveal_strlit("@");
    reveal_strlit(" x");
    law_decimal_reads_back(streak);
    let l2 = lines_of(Polled::Error(fault), streak).1;
    let n = fault_text(fault).len() as int;
    assert(l2.subrange(1, n + 1) =~= fault_text(fault));
    assert(l2.subrange(n + 1, n + 3) =~= seq![' ', 'x']);
    assert(l2.skip(n + 3) =~= decimal(streak));
}

/// A sample ends the streak, a sensor that is warming up leaves it, and every error,
/// whatever it is, adds one to it. The sensor is started again on the third error of a
/// streak or later, whatever it is, and on nothing else.
pub proof fn law_streaks(streak: nat, polled: Polled)
    ensures
        polled is Measured ==> streak_after(streak, polled) == 0,
        polled is NotReady ==> streak_after(streak, polled) == streak,
        polled is Error ==> streak_after(streak, polled) == streak + 1,
        restarts(streak, polled) <==> polled is Error && streak >= 2,
{
}

/// A record is sent for a measured sample and for nothing else. It carries the sample's
/// own numbers under the names of the series.
pub proof fn law_every_sample_is_sent(polled: Polled, series: Series)
    ensures
        record_of(polled, series) is Some <==> polled is Measured,
        polled matches Polled::Measured(r) ==> (byte_len(series.measurement@) + byte_len(
            series.tags@,
        ) + byte_len(joined(r.temp_sent@)) + byte_len(joined(r.hum_sent@)) <= 160 ==> record_of(
            polled,
            series,
        ) == Some(
            series.measurement@ + ","@ + series.tags@ + " co2="@ + decimal(r.co2 as nat)
                + "i,temp="@ + joined(r.temp_sent@) + ",humid="@ + joined(r.hum_sent@),
        )),
{
    if let Polled::Measured(r) = polled {
        if byte_len(series.measurement@) + byte_len(series.tags@) + byte_len(
            joined(r.temp_sent@),
        ) + byte_len(joined(r.hum_sent@)) <= 160 {
            law_record_reads_back(
                series.measurement@,
                series.tags@,
                r.co2,
                r.temp_sent@,
                r.hum_sent@,
            );
        }
    }
}

} // verus!
