//! Writing samples to InfluxDB v2 over HTTP.
//!
//! The sockets and the HTTP client belong to the firmware. Here are the request
//! that is sent and what its answer means.

use vstd::prelude::*;
use vstd::string::StringExecFns;

use crate::request::{Request, Verb};
use crate::text::{to_decimal, Line, Number};

verus! {

use crate::text::{
    bounded,
    byte_len,
    decimal,
    joined,
    law_decimal_is_plain,
    law_decimal_reads_back,
    law_line_holds_what_fits,
    law_line_is_a_prefix,
    lemma_ascii_byte_len,
    lemma_byte_len_concat,
    lemma_decimal_len,
    lemma_joined_concat,
    lemma_number_widths,
    lemma_one_piece,
    lemma_three_pieces,
    lemma_two_pieces,
    number_of,
};

/// Where samples go.
pub struct Database {
    /// Base URL of the server.
    pub url: String,
    pub org: String,
    pub bucket: String,
    pub token: String,
}

/// The write endpoint.
pub fn write_url(db: &Database) -> (url: String)
    ensures
        url@ == db.url@ + "/api/v2/write?org="@ + db.org@ + "&bucket="@ + db.bucket@
            + "&precision=s"@,
{
    let mut url = db.url.as_str().to_owned();
    url.append("/api/v2/write?org=");
    url.append(db.org.as_str());
    url.append("&bucket=");
    url.append(db.bucket.as_str());
    url.append("&precision=s");
    url
}

/// The headers of a write: the token, and the type of the body.
pub fn headers(db: &Database) -> (headers: [(&'static str, String); 2])
    ensures
        headers[0].0@ == "Authorization"@,
        headers[0].1@ == "Token "@ + db.token@,
        headers[1].0@ == "Content-Type"@,
        headers[1].1@ == "text/plain; charset=utf-8"@,
{
    let mut token = "Token ".to_owned();
    token.append(db.token.as_str());
    [("Authorization", token), ("Content-Type", "text/plain; charset=utf-8".to_owned())]
}

/// The request that writes a record: a POST of the record as plain text, with the
/// token.
pub open spec fn is_write_request(request: Request, db: Database, record: Seq<char>) -> bool {
    &&& request.method == Verb::Post
    &&& request.url@ == db.url@ + "/api/v2/write?org="@ + db.org@ + "&bucket="@ + db.bucket@
        + "&precision=s"@
    &&& request.headers[0].0@ == "Authorization"@
    &&& request.headers[0].1@ == "Token "@ + db.token@
    &&& request.headers[1].0@ == "Content-Type"@
    &&& request.headers[1].1@ == "text/plain; charset=utf-8"@
    &&& request.body is Some
    &&& request.body->0@ == record
}

/// The request that writes a record.
pub fn write_request(db: &Database, record: &str) -> (request: Request)
    ensures
        is_write_request(request, *db, record@),
{
    Request {
        method: Verb::Post,
        url: write_url(db),
        headers: headers(db),
        body: Some(record.to_owned()),
    }
}

/// A sample as a line protocol record.
pub open spec fn sample_record(
    measurement: Seq<char>,
    tags: Seq<char>,
    co2: u16,
    temp: Seq<Seq<char>>,
    humid: Seq<Seq<char>>,
) -> Seq<Seq<char>> {
    seq![measurement, ","@, tags, " co2="@, decimal(co2 as nat), "i,temp="@] + temp + seq![
        ",humid="@,
    ] + humid
}

/// A sample as a line protocol record of up to 192 bytes:
/// `<measurement>,<tags> co2=<i>,temp=<f>,humid=<f>`.
pub fn sample_line(measurement: &str, tags: &str, co2: u16, temp: &Number, humid: &Number) -> (line:
    String)
    ensures
        line@ == bounded(sample_record(measurement@, tags@, co2, temp@, humid@), 192),
        byte_len(line@) <= 192,
{
    let number = to_decimal(co2 as u32);
    let line: Line<192> = Line::new().put(measurement).put(",").put(tags).put(" co2=").put(
        number.as_str(),
    ).put("i,temp=").put_number(temp).put(",humid=").put_number(humid);
    proof {
        assert(line@ =~= sample_record(measurement@, tags@, co2, temp@, humid@));
        law_line_is_a_prefix(line@, 192);
    }
    line.finish()
}

/// A counter as a line protocol record.
pub open spec fn heartbeat_text(counter: u32) -> Seq<char> {
    "heartbeat,host=esp32s3 value="@ + decimal(counter as nat) + "u"@
}

/// A counter as a line protocol record. Without a timestamp the server's time
/// counts.
pub fn heartbeat_line(counter: u32) -> (line: String)
    ensures
        line@ == heartbeat_text(counter),
{
    let number = to_decimal(counter);
    let line: Line<128> = Line::new().put("heartbeat,host=esp32s3 value=").put(
        number.as_str(),
    ).put("u");
    proof {
        reveal_strlit("heartbeat,host=esp32s3 value=");
        reveal_strlit("u");
        lemma_ascii_byte_len("heartbeat,host=esp32s3 value="@);
        lemma_ascii_byte_len("u"@);
        lemma_number_widths();
        lemma_decimal_len(counter as nat, 10);
        lemma_three_pieces("heartbeat,host=esp32s3 value="@, number@, "u"@, 128);
        assert(line@ =~= seq!["heartbeat,host=esp32s3 value="@, number@, "u"@]);
    }
    line.finish()
}

/// The counter of the next heartbeat.
pub open spec fn heartbeat_after(counter: u32) -> u32 {
    ((counter + 1) % 0x1_0000_0000) as u32
}

/// Heartbeats count up by one, and start over after the largest counter only; no two
/// counters have the same successor.
pub proof fn law_heartbeats_count_up(counter: u32, other: u32)
    ensures
        counter < u32::MAX ==> heartbeat_after(counter) == counter + 1,
        counter == u32::MAX ==> heartbeat_after(counter) == 0,
        heartbeat_after(counter) == heartbeat_after(other) <==> counter == other,
{
}

/// The counter of the next heartbeat. It starts over after the largest one.
pub fn next_heartbeat(counter: u32) -> (next: u32)
    ensures
        next == heartbeat_after(counter),
        next == (counter + 1) % 0x1_0000_0000,
{
    counter.wrapping_add(1)
}

/// How a part of a write ended.
#[derive(Clone, Copy, Debug, PartialEq, Eq, Structural)]
pub enum PostEvent {
    /// The connection is open, or it could not be opened.
    Opened(bool),
    /// The response's status code, or no response.
    Responded(Option<u16>),
}

/// What to do after a part of a write.
#[derive(Clone, Copy, Debug, PartialEq, Eq)]
pub enum PostNext {
    /// Send the record.
    Send,
    /// The write is over, with the status code of the answer. Which code that is
    /// makes no difference here: it is shown.
    Finished(Result<u16, ()>),
}

/// What happens after a part of a write.
pub open spec fn after_post(event: PostEvent) -> PostNext {
    match event {
        PostEvent::Opened(true) => PostNext::Send,
        PostEvent::Opened(false) => PostNext::Finished(Err(())),
        PostEvent::Responded(Some(status)) => PostNext::Finished(Ok(status)),
        PostEvent::Responded(None) => PostNext::Finished(Err(())),
    }
}

/// A record is sent exactly when the connection opened. A write that was answered ends
/// with the answer's status code, whichever it is, and one that was not with an error.
pub proof fn law_post_reports_the_answer(event: PostEvent, status: u16)
    ensures
        after_post(event) == PostNext::Send <==> event == PostEvent::Opened(true),
        after_post(event) == PostNext::Finished(Ok(status)) <==> event == PostEvent::Responded(
            Some(status),
        ),
        after_post(event) == PostNext::Finished(Err(())) <==> event == PostEvent::Opened(false)
            || event == PostEvent::Responded(None),
{
}

/// POST a record: what to do after a part of it.
pub fn post_influx(event: PostEvent) -> (next: PostNext)
    ensures
        next == after_post(event),
        next == (match event {
            PostEvent::Opened(true) => PostNext::Send,
            PostEvent::Opened(false) => PostNext::Finished(Err(())),
            PostEvent::Responded(Some(status)) => PostNext::Finished(Ok(status)),
            PostEvent::Responded(None) => PostNext::Finished(Err(())),
        }),
{
    match event {
        PostEvent::Opened(ok) => {
            if ok {
                PostNext::Send
            } else {
                PostNext::Finished(Err(()))
            }
        },
        PostEvent::Responded(status) => match status {
            Some(status) => PostNext::Finished(Ok(status)),
            None => PostNext::Finished(Err(())),
        },
    }
}

/// What the outcome of a write reads like.
pub open spec fn outcome_text(outcome: Result<u16, ()>) -> Seq<char> {
    match outcome {
        Ok(status) => "InfluxDB: "@ + decimal(status as nat),
        Err(_) => "InfluxDB: err"@,
    }
}

/// What the outcome of a write reads like.
pub fn outcome_line(outcome: Result<u16, ()>) -> (line: String)
    ensures
        line@ == outcome_text(outcome),
        byte_len(line@) <= 24,
{
    proof {
        reveal_strlit("InfluxDB: ");
        reveal_strlit("InfluxDB: err");
        lemma_ascii_byte_len("InfluxDB: "@);
        lemma_ascii_byte_len("InfluxDB: err"@);
    }
    let line: Line<24> = Line::new();
    let line = match outcome {
        Ok(status) => {
            let number = to_decimal(status as u32);
            let line = line.put("InfluxDB: ").put(number.as_str());
            proof {
                lemma_number_widths();
                lemma_decimal_len(status as nat, 5);
                lemma_two_pieces("InfluxDB: "@, number@, 24);
                assert(line@ =~= seq!["InfluxDB: "@, number@]);
            }
            line
        },
        Err(_) => {
            let line = line.put("InfluxDB: err");
            proof {
                lemma_one_piece("InfluxDB: err"@, 24);
                assert(line@ =~= seq!["InfluxDB: err"@]);
            }
            line
        },
    };
    proof {
        law_line_is_a_prefix(line@, 24);
    }
    line.finish()
}

/// A record that fits the line is sent whole: the measurement and the tags, then
/// the three fields.
pub proof fn law_record_is_whole(
    measurement: Seq<char>,
    tags: Seq<char>,
    co2: u16,
    temp: Seq<Seq<char>>,
    humid: Seq<Seq<char>>,
)
    requires
        byte_len(record_text(measurement, tags, co2, joined(temp), joined(humid))) <= 192,
    ensures
        bounded(sample_record(measurement, tags, co2, temp, humid), 192) == record_text(
            measurement,
            tags,
            co2,
            joined(temp),
            joined(humid),
        ),
{
    let head = seq![measurement, ","@, tags, " co2="@, decimal(co2 as nat), "i,temp="@];
    let mid = seq![",humid="@];
    let record = sample_record(measurement, tags, co2, temp, humid);
    reveal_with_fuel(joined, 7);
    let r5 = head.drop_last();
    let r4 = r5.drop_last();
    let r3 = r4.drop_last();
    let r2 = r3.drop_last();
    let r1 = r2.drop_last();
    let r0 = r1.drop_last();
    assert(joined(r0) =~= Seq::<char>::empty());
    assert(joined(r1) =~= measurement);
    assert(joined(head) =~= measurement + ","@ + tags + " co2="@ + decimal(co2 as nat)
        + "i,temp="@);
    assert(joined(mid.drop_last()) =~= Seq::<char>::empty());
    assert(joined(mid) =~= ",humid="@);
    lemma_joined_concat(head, temp);
    lemma_joined_concat(head + temp, mid);
    lemma_joined_concat(head + temp + mid, humid);
    assert(joined(record) =~= record_text(measurement, tags, co2, joined(temp), joined(humid)));
    law_line_holds_what_fits(record, 192);
}

/// The text of a record that is sent whole.
pub open spec fn record_text(
    measurement: Seq<char>,
    tags: Seq<char>,
    co2: u16,
    temp: Seq<char>,
    humid: Seq<char>,
) -> Seq<char> {
    measurement + ","@ + tags + " co2="@ + decimal(co2 as nat) + "i,temp="@ + temp + ",humid="@
        + humid
}

/// The request that writes a record: a POST of exactly the record, to the write
/// endpoint of the database for its organisation and bucket with times in seconds, with
/// the database's token.
pub proof fn law_write_request(request: Request, db: Database, record: Seq<char>)
    requires
        is_write_request(request, db, record),
    ensures
        request.method is Post,
        request.body is Some && request.body->0@ == record,
        request.url@ == db.url@ + "/api/v2/write?org="@ + db.org@ + "&bucket="@ + db.bucket@
            + "&precision=s"@,
        request.headers[0].0@ == "Authorization"@,
        request.headers[0].1@.take(6) == seq!['T', 'o', 'k', 'e', 'n', ' '],
        request.headers[0].1@.skip(6) == db.token@,
        request.headers[1].0@ == "Content-Type"@,
        request.headers[1].1@ == "text/plain; charset=utf-8"@,
{
    reveal_strlit("Token ");
    assert(request.headers[0].1@.take(6) =~= seq!['T', 'o', 'k', 'e', 'n', ' ']);
    assert(request.headers[0].1@.skip(6) =~= db.token@);
}

/// A record that fits names the measurement and the tags and then the three fields,
/// carbon dioxide as an integer; nothing is left out and nothing rounded.
pub proof fn law_record_reads_back(
    measurement: Seq<char>,
    tags: Seq<char>,
    co2: u16,
    temp: Seq<Seq<char>>,
    humid: Seq<Seq<char>>,
)
    requires
        byte_len(measurement) + byte_len(tags) + byte_len(joined(temp)) + byte_len(joined(humid))
            <= 160,
    ensures
        bounded(sample_record(measurement, tags, co2, temp, humid), 192) == measurement + ","@
            + tags + " co2="@ + decimal(co2 as nat) + "i,temp="@ + joined(temp) + ",humid="@
            + joined(humid),
{
    reveal_strlit(",");
    reveal_strlit(" co2=");
    reveal_strlit("i,temp=");
    reveal_strlit(",humid=");
    lemma_ascii_byte_len(","@);
    lemma_ascii_byte_len(" co2="@);
    lemma_ascii_byte_len("i,temp="@);
    lemma_ascii_byte_len(",humid="@);
    lemma_number_widths();
    lemma_decimal_len(co2 as nat, 5);
    let a = measurement + ","@;
    let b = a + tags;
    let c = b + " co2="@;
    let d = c + decimal(co2 as nat);
    let e = d + "i,temp="@;
    let f = e + joined(temp);
    let g = f + ",humid="@;
    lemma_byte_len_concat(measurement, ","@);
    lemma_byte_len_concat(a, tags);
    lemma_byte_len_concat(b, " co2="@);
    lemma_byte_len_concat(c, decimal(co2 as nat));
    lemma_byte_len_concat(d, "i,temp="@);
    lemma_byte_len_concat(e, joined(temp));
    lemma_byte_len_concat(f, ",humid="@);
    lemma_byte_len_concat(g, joined(humid));
    law_record_is_whole(measurement, tags, co2, temp, humid);
}

/// A heartbeat names its series and carries its counter as an unsigned number, so two
/// heartbeats are the same record only for the same counter.
pub proof fn law_heartbeat_reads_back(counter: u32, other: u32)
    ensures
        ({
            let text = heartbeat_text(counter);
            let n = text.len() as int;
            &&& text.take(29) == "heartbeat,host=esp32s3 value="@
            &&& text[n - 1] == 'u'
            &&& number_of(text.subrange(29, n - 1)) == counter
        }),
        heartbeat_text(counter) == heartbeat_text(other) <==> counter == other,
{
    lemma_heartbeat(counter);
    lemma_heartbeat(other);
}

proof fn lemma_heartbeat(counter: u32)
    ensures
        ({
            let text = heartbeat_text(counter);
            let n = text.len() as int;
            &&& text.take(29) == "heartbeat,host=esp32s3 value="@
            &&& text[n - 1] == 'u'
            &&& number_of(text.subrange(29, n - 1)) == counter
        }),
{
    reveal_strlit("heartbeat,host=esp32s3 value=");
    reveal_strlit("u");
    law_decimal_reads_back(counter as nat);
    let text = heartbeat_text(counter);
    assert(text.take(29) =~= "heartbeat,host=esp32s3 value="@);
    assert(text.subrange(29, text.len() - 1) =~= decimal(counter as nat));
}

/// The outcome of a write shows the status code of the answer, whichever it is, and an
/// error for no answer.
pub proof fn law_outcome_reads_back(status: u16)
    ensures
        ({
            let text = outcome_text(Ok(status));
            &&& text.take(10) == "InfluxDB: "@
            &&& number_of(text.skip(10)) == status
        }),
        outcome_text(Err(())) == "InfluxDB: err"@,
        outcome_text(Err(())) != outcome_text(Ok(status)),
{
    reveal_strlit("InfluxDB: ");
    reveal_strlit("InfluxDB: err");
    law_decimal_is_plain(status as nat);
    let text = outcome_text(Ok(status));
    assert(text.take(10) =~= "InfluxDB: "@);
    assert(text.skip(10) =~= decimal(status as nat));
    assert(text[10] == decimal(status as nat)[0]);
    assert("InfluxDB: err"@[10] == 'e');
}

} // verus!
