//! Keeping the station associated, and fetching the status document.
//!
//! The waits, the sockets and the HTTP client belong to the firmware. What is
//! decided here is what each answer means: which failure goes on the panel, and
//! what to do next.

use reqwless::response::StatusCode;
use vstd::prelude::*;
use vstd::string::StringExecFns;

use crate::request::{Request, Verb};

verus! {

/// Hard ceiling on one fetch, so a silent peer cannot stall the refresh loop.
pub const FETCH_TIMEOUT_SECS: u64 = 15;

/// Per-socket timeout, so a peer that accepts and then goes quiet cannot pin
/// the single TCP socket.
pub const SOCKET_TIMEOUT_SECS: u64 = 10;

/// Pause between two attempts to associate.
pub const RECONNECT_MS: u64 = 5000;

/// Room for one document. An overrun is reported rather than truncated into a
/// parse error.
pub const BODY_MAX: usize = 4096;

/// Where the aggregator lives and the secret it asks for.
pub struct Endpoint {
    pub url: String,
    pub token: String,
}

/// The aggregator's URL, for logging it at startup.
pub fn status_url(endpoint: &Endpoint) -> (url: &str)
    ensures
        url@ == endpoint.url@,
{
    endpoint.url.as_str()
}

/// The value of the `Authorization` header: the shared secret as a bearer
/// token.
pub fn authorization(endpoint: &Endpoint) -> (value: String)
    ensures
        value@ == "Bearer "@ + endpoint.token@,
{
    let mut value = "Bearer ".to_owned();
    value.append(endpoint.token.as_str());
    value
}

/// The headers of the request: what is asked for, and the token.
pub fn headers(endpoint: &Endpoint) -> (headers: [(&'static str, String); 2])
    ensures
        headers[0].0@ == "Accept"@,
        headers[0].1@ == "application/json"@,
        headers[1].0@ == "Authorization"@,
        headers[1].1@ == "Bearer "@ + endpoint.token@,
{
    [("Accept", "application/json".to_owned()), ("Authorization", authorization(endpoint))]
}

/// The request for the status document: a GET without a body, for JSON, with the
/// token.
pub open spec fn is_status_request(request: Request, endpoint: Endpoint) -> bool {
    &&& request.method == Verb::Get
    &&& request.url@ == endpoint.url@
    &&& request.headers[0].0@ == "Accept"@
    &&& request.headers[0].1@ == "application/json"@
    &&& request.headers[1].0@ == "Authorization"@
    &&& request.headers[1].1@ == "Bearer "@ + endpoint.token@
    &&& request.body is None
}

/// The request for the status document.
pub fn status_request(endpoint: &Endpoint) -> (request: Request)
    ensures
        is_status_request(request, *endpoint),
{
    Request {
        method: Verb::Get,
        url: status_url(endpoint).to_owned(),
        headers: headers(endpoint),
        body: None,
    }
}

/// Why a fetch did not produce a document.
///
/// The distinctions are the ones that need different fixes: reflash the
/// firmware, raise a buffer, or go look at the network.
#[derive(Clone, Copy, Debug, PartialEq, Eq, Structural)]
pub enum FetchError {
    Timeout,
    Request,
    NoResponse,
    Unauthorized,
    Status,
    TooLarge,
    Body,
    Parse,
}

/// One line of plain English for the panel.
pub open spec fn detail_text(error: FetchError) -> Seq<char> {
    match error {
        FetchError::Timeout => "pi01 did not answer in time"@,
        FetchError::Request => "could not open connection to pi01"@,
        FetchError::NoResponse => "no response from homelab-status"@,
        FetchError::Unauthorized => "STATUS_TOKEN rejected - rebuild firmware"@,
        FetchError::Status => "homelab-status returned an error"@,
        FetchError::TooLarge => "response outgrew the parse buffer"@,
        FetchError::Body => "response body could not be read"@,
        FetchError::Parse => "response did not match expected shape"@,
    }
}

impl FetchError {
    /// One line of plain English for the panel.
    pub fn detail(self) -> (text: &'static str)
        ensures
            text@ == detail_text(self),
    {
        match self {
            FetchError::Timeout => "pi01 did not answer in time",
            FetchError::Request => "could not open connection to pi01",
            FetchError::NoResponse => "no response from homelab-status",
            FetchError::Unauthorized => "STATUS_TOKEN rejected - rebuild firmware",
            FetchError::Status => "homelab-status returned an error",
            FetchError::TooLarge => "response outgrew the parse buffer",
            FetchError::Body => "response body could not be read",
            FetchError::Parse => "response did not match expected shape",
        }
    }
}

/// What part of a fetch is under way.
#[derive(Clone, Copy, Debug, PartialEq, Eq, Structural)]
pub enum FetchStage {
    /// Opening the connection.
    Open,
    /// Sending the request and waiting for the response's head.
    Send,
    /// Reading the body.
    ReadBody,
    /// Parsing the body.
    Parse,
}

/// How reading the body went.
#[derive(Clone, Copy, Debug, PartialEq, Eq, Structural)]
pub enum BodyRead {
    /// It is this many bytes.
    Read(usize),
    /// The client ran out of buffer.
    BufferTooSmall,
    /// Anything else that went wrong.
    Failed,
}

/// How a stage ended.
#[derive(Clone, Copy, Debug, PartialEq, Eq, Structural)]
pub enum FetchEvent {
    /// The hard ceiling was reached, in whatever stage.
    TimedOut,
    /// The connection is open, or it could not be opened.
    Opened(bool),
    /// The response's status code, or no response.
    Responded(Option<u16>),
    /// The body.
    Body(BodyRead),
    /// Whether the body had the expected shape.
    Parsed(bool),
}

/// What to do after a stage.
#[derive(Clone, Copy, Debug, PartialEq, Eq)]
pub enum FetchNext {
    /// Go on to this stage.
    Go(FetchStage),
    /// The fetch is over. `Ok` stands for the document that was parsed.
    Finished(Result<(), FetchError>),
}

/// Whether `event` is one that `stage` can end with.
pub open spec fn answers(stage: FetchStage, event: FetchEvent) -> bool {
    match event {
        FetchEvent::TimedOut => true,
        FetchEvent::Opened(_) => stage == FetchStage::Open,
        FetchEvent::Responded(_) => stage == FetchStage::Send,
        FetchEvent::Body(_) => stage == FetchStage::ReadBody,
        FetchEvent::Parsed(_) => stage == FetchStage::Parse,
    }
}

/// What a status code means for the fetch.
pub open spec fn code_verdict(code: u16) -> Result<(), FetchError> {
    if code == 401 || code == 403 {
        Err(FetchError::Unauthorized)
    } else if 200 <= code <= 299 {
        Ok(())
    } else {
        Err(FetchError::Status)
    }
}

/// What a body means for the fetch. One that exactly fills the buffer cannot be
/// told from one that was cut at the limit, so it is oversized too.
pub open spec fn body_verdict(body: BodyRead) -> Result<(), FetchError> {
    match body {
        BodyRead::Read(len) => if len >= BODY_MAX {
            Err(FetchError::TooLarge)
        } else {
            Ok(())
        },
        BodyRead::BufferTooSmall => Err(FetchError::TooLarge),
        BodyRead::Failed => Err(FetchError::Body),
    }
}

/// Go on to `stage` unless the verdict was an error.
pub open spec fn go_on(verdict: Result<(), FetchError>, stage: FetchStage) -> FetchNext {
    match verdict {
        Ok(()) => FetchNext::Go(stage),
        Err(error) => FetchNext::Finished(Err(error)),
    }
}

/// What happens after a stage ended with `event`.
pub open spec fn after_event(event: FetchEvent) -> FetchNext {
    match event {
        FetchEvent::TimedOut => FetchNext::Finished(Err(FetchError::Timeout)),
        FetchEvent::Opened(ok) => go_on(
            if ok {
                Ok(())
            } else {
                Err(FetchError::Request)
            },
            FetchStage::Send,
        ),
        FetchEvent::Responded(None) => FetchNext::Finished(Err(FetchError::NoResponse)),
        FetchEvent::Responded(Some(code)) => go_on(code_verdict(code), FetchStage::ReadBody),
        FetchEvent::Body(body) => go_on(body_verdict(body), FetchStage::Parse),
        FetchEvent::Parsed(ok) => FetchNext::Finished(
            if ok {
                Ok(())
            } else {
                Err(FetchError::Parse)
            },
        ),
    }
}

/// Asks `reqwless`' `StatusCode::is_successful`. Claims that the codes from 200
/// to 299 are the successful ones.
#[verifier::external_body]
fn is_successful(code: u16) -> (ok: bool)
    ensures
        ok == (200 <= code <= 299),
{
    StatusCode(code).is_successful()
}

/// What a status code means for the fetch.
pub fn check_code(code: u16) -> (verdict: Result<(), FetchError>)
    ensures
        verdict == code_verdict(code),
{
    if code == 401 || code == 403 {
        return Err(FetchError::Unauthorized);
    }
    if !is_successful(code) {
        return Err(FetchError::Status);
    }
    Ok(())
}

/// What a body means for the fetch.
pub fn check_body(body: BodyRead) -> (verdict: Result<(), FetchError>)
    ensures
        verdict == body_verdict(body),
{
    match body {
        BodyRead::BufferTooSmall => Err(FetchError::TooLarge),
        BodyRead::Failed => Err(FetchError::Body),
        BodyRead::Read(len) => {
            if len >= BODY_MAX {
                Err(FetchError::TooLarge)
            } else {
                Ok(())
            }
        },
    }
}

/// GET the status document: what to do after a stage ended. A fetch starts in
/// [`FetchStage::Open`].
pub fn fetch_status(stage: FetchStage, event: FetchEvent) -> (next: FetchNext)
    requires
        answers(stage, event),
    ensures
        next == after_event(event),
{
    match event {
        FetchEvent::TimedOut => FetchNext::Finished(Err(FetchError::Timeout)),
        FetchEvent::Opened(ok) => {
            if ok {
                FetchNext::Go(FetchStage::Send)
            } else {
                FetchNext::Finished(Err(FetchError::Request))
            }
        },
        FetchEvent::Responded(code) => {
            match code {
                None => FetchNext::Finished(Err(FetchError::NoResponse)),
                Some(code) => match check_code(code) {
                    Ok(()) => FetchNext::Go(FetchStage::ReadBody),
                    Err(error) => FetchNext::Finished(Err(error)),
                },
            }
        },
        FetchEvent::Body(body) => match check_body(body) {
            Ok(()) => FetchNext::Go(FetchStage::Parse),
            Err(error) => FetchNext::Finished(Err(error)),
        },
        FetchEvent::Parsed(ok) => {
            if ok {
                FetchNext::Finished(Ok(()))
            } else {
                FetchNext::Finished(Err(FetchError::Parse))
            }
        },
    }
}

impl FetchStage {
    /// What this stage of a fetch sends: the request for the status document when
    /// it is sent, and nothing otherwise.
    pub fn sends(&self, endpoint: &Endpoint) -> (request: Option<Request>)
        ensures
            request is Some <==> *self == FetchStage::Send,
            request matches Some(request) ==> is_status_request(request, *endpoint),
    {
        match self {
            FetchStage::Send => Some(status_request(endpoint)),
            _ => None,
        }
    }
}

/// Where a fetch stands after its stages ended with `events`; `None` when an
/// event does not answer its stage.
pub open spec fn fetch_through(events: Seq<FetchEvent>) -> Option<FetchNext>
    decreases events.len(),
{
    if events.len() == 0 {
        Some(FetchNext::Go(FetchStage::Open))
    } else {
        match fetch_through(events.drop_last()) {
            Some(FetchNext::Go(stage)) => if answers(stage, events.last()) {
                Some(after_event(events.last()))
            } else {
                None
            },
            _ => None,
        }
    }
}

/// A document comes of a fetch only when the connection opened, the answer was
/// a success, the body left room in the buffer and had the expected shape.
pub proof fn law_document_needs_every_stage(events: Seq<FetchEvent>)
    ensures
        fetch_through(events) == Some(FetchNext::Finished(Ok(()))) <==> exists|code: u16, len: usize|
            200 <= code <= 299 && len < BODY_MAX && events == #[trigger] good_fetch(code, len),
{
    reveal_with_fuel(fetch_through, 5);
    if fetch_through(events) == Some(FetchNext::Finished(Ok(()))) {
        let three = events.drop_last();
        let two = three.drop_last();
        let one = two.drop_last();
        assert(events.last() == FetchEvent::Parsed(true));
        assert(fetch_through(three) == Some(FetchNext::Go(FetchStage::Parse)));
        let len = three.last()->Body_0->Read_0;
        assert(fetch_through(two) == Some(FetchNext::Go(FetchStage::ReadBody)));
        let code = two.last()->Responded_0->0;
        assert(fetch_through(one) == Some(FetchNext::Go(FetchStage::Send)));
        assert(one.last() == FetchEvent::Opened(true));
        assert(fetch_through(one.drop_last()) == Some(FetchNext::Go(FetchStage::Open)));
        assert(one.drop_last().len() == 0);
        assert(events =~= good_fetch(code, len));
    }
    if exists|code: u16, len: usize|
        200 <= code <= 299 && len < BODY_MAX && events == #[trigger] good_fetch(code, len) {
        let (code, len) = choose|code: u16, len: usize|
            200 <= code <= 299 && len < BODY_MAX && events == #[trigger] good_fetch(code, len);
        let three = events.drop_last();
        assert(three =~= seq![
            FetchEvent::Opened(true),
            FetchEvent::Responded(Some(code)),
            FetchEvent::Body(BodyRead::Read(len)),
        ]);
        let two = three.drop_last();
        assert(two =~= seq![FetchEvent::Opened(true), FetchEvent::Responded(Some(code))]);
        let one = two.drop_last();
        assert(one =~= seq![FetchEvent::Opened(true)]);
        assert(one.drop_last() =~= Seq::<FetchEvent>::empty());
    }
}

/// A fetch sends exactly one request if the connection could be opened, and none
/// otherwise: of the stages it goes through, only the one after an opened connection
/// sends.
pub proof fn law_fetch_sends_one_request(events: Seq<FetchEvent>, n: int)
    requires
        fetch_through(events) is Some,
        0 <= n <= events.len(),
    ensures
        fetch_through(events.take(n)) == Some(FetchNext::Go(FetchStage::Send)) <==> n == 1
            && events[0] == FetchEvent::Opened(true),
    decreases events.len(),
{
    if n < events.len() {
        assert(fetch_through(events.drop_last()) is Some);
        law_fetch_sends_one_request(events.drop_last(), n);
        assert(events.drop_last().take(n) =~= events.take(n));
    } else {
        assert(events.take(n) =~= events);
        if n == 1 {
            assert(events.drop_last().len() == 0);
        } else if n > 1 {
            let before = events.drop_last();
            assert(fetch_through(before) is Some);
            if fetch_through(before) == Some(FetchNext::Go(FetchStage::Open)) {
                lemma_opening_is_first(before);
            }
        }
    }
}

/// A fetch only opens its connection at the start.
proof fn lemma_opening_is_first(events: Seq<FetchEvent>)
    requires
        fetch_through(events) == Some(FetchNext::Go(FetchStage::Open)),
    ensures
        events.len() == 0,
{
}

/// The stages of a fetch in which nothing goes wrong.
pub open spec fn good_fetch(code: u16, len: usize) -> Seq<FetchEvent> {
    seq![
        FetchEvent::Opened(true),
        FetchEvent::Responded(Some(code)),
        FetchEvent::Body(BodyRead::Read(len)),
        FetchEvent::Parsed(true),
    ]
}

/// A rejected token is told apart from every other answer, and is never taken
/// for an outage.
pub proof fn law_rejected_token_is_told_apart(event: FetchEvent)
    ensures
        after_event(event) == FetchNext::Finished(Err(FetchError::Unauthorized)) <==> (event
            == FetchEvent::Responded(Some(401)) || event == FetchEvent::Responded(Some(403))),
{
}

/// An outgrown document is told apart from a broken connection.
pub proof fn law_outgrown_document_is_told_apart(event: FetchEvent)
    ensures
        after_event(event) == FetchNext::Finished(Err(FetchError::TooLarge)) <==> (event
            == FetchEvent::Body(BodyRead::BufferTooSmall) || (event matches FetchEvent::Body(
            BodyRead::Read(len),
        ) && len >= BODY_MAX)),
{
}

/// Failures that need different fixes read differently on the panel.
pub proof fn law_details_differ(a: FetchError, b: FetchError)
    requires
        a != b,
    ensures
        detail_text(a) != detail_text(b),
{
    reveal_strlit("pi01 did not answer in time");
    reveal_strlit("could not open connection to pi01");
    reveal_strlit("no response from homelab-status");
    reveal_strlit("STATUS_TOKEN rejected - rebuild firmware");
    reveal_strlit("homelab-status returned an error");
    reveal_strlit("response outgrew the parse buffer");
    reveal_strlit("response body could not be read");
    reveal_strlit("response did not match expected shape");
    let x = detail_text(a);
    let y = detail_text(b);
    assert(x.len() != y.len() || x[0] != y[0] || x[9] != y[9]);
}

/// What the WiFi task does next.
#[derive(Clone, Copy, Debug, PartialEq, Eq, Structural)]
pub enum LinkAction {
    /// Try to associate.
    Connect,
    /// Associated: wait until the link drops.
    WaitForDrop,
    /// Wait this long before trying again.
    Pause(u64),
}

/// How the WiFi task's last action ended.
#[derive(Clone, Copy, Debug, PartialEq, Eq, Structural)]
pub enum LinkEvent {
    Connected,
    ConnectFailed,
    Dropped,
    Waited,
}

/// What the WiFi task does after an event.
pub open spec fn link_after(event: LinkEvent) -> LinkAction {
    match event {
        LinkEvent::Connected => LinkAction::WaitForDrop,
        LinkEvent::ConnectFailed => LinkAction::Pause(5000),
        LinkEvent::Dropped => LinkAction::Pause(5000),
        LinkEvent::Waited => LinkAction::Connect,
    }
}

/// The link is never given up: a station without a link tries again after five seconds
/// and no sooner, and one with a link leaves it alone until it drops.
pub proof fn law_link_is_never_given_up(event: LinkEvent)
    ensures
        link_after(event) is WaitForDrop <==> event is Connected,
        link_after(event) is Connect <==> event is Waited,
        link_after(event) == LinkAction::Pause(5_000) <==> event is ConnectFailed
            || event is Dropped,
{
}

/// Keeps the station associated, reconnecting after a drop. The task starts
/// with [`LinkAction::Connect`].
pub fn connection(event: LinkEvent) -> (next: LinkAction)
    ensures
        next == link_after(event),
        next == (match event {
            LinkEvent::Connected => LinkAction::WaitForDrop,
            LinkEvent::ConnectFailed => LinkAction::Pause(5000),
            LinkEvent::Dropped => LinkAction::Pause(5000),
            LinkEvent::Waited => LinkAction::Connect,
        }),
{
    match event {
        LinkEvent::Connected => LinkAction::WaitForDrop,
        LinkEvent::ConnectFailed | LinkEvent::Dropped => LinkAction::Pause(RECONNECT_MS),
        LinkEvent::Waited => LinkAction::Connect,
    }
}

/// Every failure has its own cause, and each cause its own failure: which error a stage
/// ends the fetch with, and on which events exactly.
pub proof fn law_each_failure_has_its_cause(event: FetchEvent)
    ensures
        after_event(event) == FetchNext::Finished(Err(FetchError::Timeout)) <==> event is TimedOut,
        after_event(event) == FetchNext::Finished(Err(FetchError::Request)) <==> event
            == FetchEvent::Opened(false),
        after_event(event) == FetchNext::Finished(Err(FetchError::NoResponse)) <==> event
            == FetchEvent::Responded(None),
        after_event(event) == FetchNext::Finished(Err(FetchError::Unauthorized)) <==> (event
            matches FetchEvent::Responded(Some(code)) && (code == 401 || code == 403)),
        after_event(event) == FetchNext::Finished(Err(FetchError::Status)) <==> (event
            matches FetchEvent::Responded(Some(code)) && code != 401 && code != 403 && !(200
            <= code < 300)),
        after_event(event) == FetchNext::Finished(Err(FetchError::TooLarge)) <==> (event
            == FetchEvent::Body(BodyRead::BufferTooSmall) || (event matches FetchEvent::Body(
            BodyRead::Read(len),
        ) && len >= 4096)),
        after_event(event) == FetchNext::Finished(Err(FetchError::Body)) <==> event
            == FetchEvent::Body(BodyRead::Failed),
        after_event(event) == FetchNext::Finished(Err(FetchError::Parse)) <==> event
            == FetchEvent::Parsed(false),
{
}

/// A stage that went well leads to the next one, and the last one to the document.
pub proof fn law_each_success_goes_on(event: FetchEvent)
    ensures
        after_event(event) == FetchNext::Go(FetchStage::Send) <==> event == FetchEvent::Opened(
            true,
        ),
        after_event(event) == FetchNext::Go(FetchStage::ReadBody) <==> (event
            matches FetchEvent::Responded(Some(code)) && 200 <= code < 300),
        after_event(event) == FetchNext::Go(FetchStage::Parse) <==> (event
            matches FetchEvent::Body(BodyRead::Read(len)) && len < 4096),
        after_event(event) == FetchNext::Finished(Ok(())) <==> event == FetchEvent::Parsed(true),
        after_event(event) != FetchNext::Go(FetchStage::Open),
{
}

/// A status code and a body are judged alone: by the code, and by the length.
pub proof fn law_verdicts(code: u16, len: usize)
    ensures
        code_verdict(code) is Ok <==> 200 <= code < 300,
        code_verdict(code) == Err::<(), FetchError>(FetchError::Unauthorized) <==> code == 401
            || code == 403,
        code_verdict(code) == Err::<(), FetchError>(FetchError::Status) <==> code != 401 && code
            != 403 && !(200 <= code < 300),
        body_verdict(BodyRead::Read(len)) is Ok <==> len < 4096,
        body_verdict(BodyRead::Read(len)) is Err ==> body_verdict(BodyRead::Read(len)) == Err::<
            (),
            FetchError,
        >(FetchError::TooLarge),
        body_verdict(BodyRead::BufferTooSmall) == Err::<(), FetchError>(FetchError::TooLarge),
        body_verdict(BodyRead::Failed) == Err::<(), FetchError>(FetchError::Body),
{
}

/// Every event ends the stage that waits for it and no other, but for reaching the
/// ceiling, which ends any.
pub proof fn law_events_answer_their_stage(stage: FetchStage, event: FetchEvent)
    ensures
        answers(stage, event) <==> match event {
            FetchEvent::TimedOut => true,
            FetchEvent::Opened(_) => stage is Open,
            FetchEvent::Responded(_) => stage is Send,
            FetchEvent::Body(_) => stage is ReadBody,
            FetchEvent::Parsed(_) => stage is Parse,
        },
{
}

/// The request for the document: a GET of the endpoint's URL without a body, for JSON,
/// with the endpoint's token and nobody else's.
pub proof fn law_status_request(request: Request, endpoint: Endpoint)
    requires
        is_status_request(request, endpoint),
    ensures
        request.method is Get,
        request.url@ == endpoint.url@,
        request.body is None,
        request.headers[0].0@ == seq!['A', 'c', 'c', 'e', 'p', 't'],
        request.headers[0].1@ == seq![
            'a',
            'p',
            'p',
            'l',
            'i',
            'c',
            'a',
            't',
            'i',
            'o',
            'n',
            '/',
            'j',
            's',
            'o',
            'n',
        ],
        request.headers[1].0@ == seq![
            'A',
            'u',
            't',
            'h',
            'o',
            'r',
            'i',
            'z',
            'a',
            't',
            'i',
            'o',
            'n',
        ],
        request.headers[1].1@.take(7) == seq!['B', 'e', 'a', 'r', 'e', 'r', ' '],
        request.headers[1].1@.skip(7) == endpoint.token@,
{
    reveal_strlit("Accept");
    reveal_strlit("application/json");
    reveal_strlit("Authorization");
    reveal_strlit("Bearer ");
    assert(request.headers[1].1@.take(7) =~= seq!['B', 'e', 'a', 'r', 'e', 'r', ' ']);
    assert(request.headers[1].1@.skip(7) =~= endpoint.token@);
}

/// Every wait is bounded, and a socket gives up before the fetch does.
pub proof fn law_waits_are_bounded()
    ensures
        SOCKET_TIMEOUT_SECS == 10,
        FETCH_TIMEOUT_SECS == 15,
        RECONNECT_MS == 5_000,
        BODY_MAX == 4_096,
{
}

} // verus!
