use homelab::net::{
    authorization, check_body, check_code, connection, fetch_status, headers, status_request, status_url, BodyRead, Endpoint,
    FetchError, FetchEvent, FetchNext, FetchStage, LinkAction, LinkEvent, BODY_MAX,
};
use homelab::request::Verb;

fn finished(error: FetchError) -> FetchNext {
    FetchNext::Finished(Err(error))
}

#[test]
fn request_carries_the_token() {
    let endpoint = Endpoint { url: "http://pi01:8080/status".to_string(), token: "abc".to_string() };
    assert_eq!(status_url(&endpoint), "http://pi01:8080/status");
    assert_eq!(authorization(&endpoint), "Bearer abc");
    let [accept, auth] = headers(&endpoint);
    assert_eq!(accept, ("Accept", "application/json".to_string()));
    assert_eq!(auth, ("Authorization", "Bearer abc".to_string()));
}

#[test]
fn document_is_asked_for_with_a_plain_get() {
    let endpoint = Endpoint { url: "http://pi01:8080/status".to_string(), token: "abc".to_string() };
    let request = status_request(&endpoint);
    assert_eq!(request.method, Verb::Get);
    assert_eq!(request.url, "http://pi01:8080/status");
    assert_eq!(request.headers, headers(&endpoint));
    assert_eq!(request.body, None);
}

#[test]
fn only_one_stage_sends() {
    let endpoint = Endpoint { url: "http://pi01".to_string(), token: "abc".to_string() };
    for stage in [FetchStage::Open, FetchStage::ReadBody, FetchStage::Parse] {
        assert!(stage.sends(&endpoint).is_none());
    }
    let request = FetchStage::Send.sends(&endpoint).unwrap();
    assert_eq!((request.method, &request.url[..]), (Verb::Get, "http://pi01"));
    assert_eq!(request.body, None);
}

#[test]
fn status_codes() {
    assert_eq!(check_code(200), Ok(()));
    assert_eq!(check_code(204), Ok(()));
    assert_eq!(check_code(299), Ok(()));
    assert_eq!(check_code(199), Err(FetchError::Status));
    assert_eq!(check_code(300), Err(FetchError::Status));
    assert_eq!(check_code(404), Err(FetchError::Status));
    assert_eq!(check_code(500), Err(FetchError::Status));
    assert_eq!(check_code(401), Err(FetchError::Unauthorized));
    assert_eq!(check_code(403), Err(FetchError::Unauthorized));
}

#[test]
fn body_sizes() {
    assert_eq!(check_body(BodyRead::Read(0)), Ok(()));
    assert_eq!(check_body(BodyRead::Read(BODY_MAX - 1)), Ok(()));
    assert_eq!(check_body(BodyRead::Read(BODY_MAX)), Err(FetchError::TooLarge));
    assert_eq!(check_body(BodyRead::BufferTooSmall), Err(FetchError::TooLarge));
    assert_eq!(check_body(BodyRead::Failed), Err(FetchError::Body));
}

#[test]
fn good_fetch_goes_through_every_stage() {
    let events = [
        FetchEvent::Opened(true),
        FetchEvent::Responded(Some(200)),
        FetchEvent::Body(BodyRead::Read(1_024)),
        FetchEvent::Parsed(true),
    ];
    let mut stage = FetchStage::Open;
    for event in &events[..3] {
        match fetch_status(stage, *event) {
            FetchNext::Go(next) => stage = next,
            over => panic!("{:?}", over),
        }
    }
    assert_eq!(stage, FetchStage::Parse);
    assert_eq!(fetch_status(stage, events[3]), FetchNext::Finished(Ok(())));
}

#[test]
fn each_failure_has_its_own_error() {
    let open = FetchStage::Open;
    let send = FetchStage::Send;
    let body = FetchStage::ReadBody;
    let parse = FetchStage::Parse;
    assert_eq!(fetch_status(open, FetchEvent::Opened(false)), finished(FetchError::Request));
    assert_eq!(fetch_status(send, FetchEvent::Responded(None)), finished(FetchError::NoResponse));
    assert_eq!(fetch_status(send, FetchEvent::Responded(Some(401))), finished(FetchError::Unauthorized));
    assert_eq!(fetch_status(send, FetchEvent::Responded(Some(502))), finished(FetchError::Status));
    assert_eq!(fetch_status(body, FetchEvent::Body(BodyRead::Failed)), finished(FetchError::Body));
    assert_eq!(
        fetch_status(body, FetchEvent::Body(BodyRead::Read(BODY_MAX))),
        finished(FetchError::TooLarge)
    );
    assert_eq!(fetch_status(parse, FetchEvent::Parsed(false)), finished(FetchError::Parse));
    for stage in [open, send, body, parse] {
        assert_eq!(fetch_status(stage, FetchEvent::TimedOut), finished(FetchError::Timeout));
    }
}

#[test]
fn details_for_the_panel() {
    assert_eq!(FetchError::Timeout.detail(), "pi01 did not answer in time");
    assert_eq!(FetchError::Request.detail(), "could not open connection to pi01");
    assert_eq!(FetchError::NoResponse.detail(), "no response from homelab-status");
    assert_eq!(FetchError::Unauthorized.detail(), "STATUS_TOKEN rejected - rebuild firmware");
    assert_eq!(FetchError::Status.detail(), "homelab-status returned an error");
    assert_eq!(FetchError::TooLarge.detail(), "response outgrew the parse buffer");
    assert_eq!(FetchError::Body.detail(), "response body could not be read");
    assert_eq!(FetchError::Parse.detail(), "response did not match expected shape");
}

#[test]
fn link_is_kept_up() {
    assert_eq!(connection(LinkEvent::Connected), LinkAction::WaitForDrop);
    assert_eq!(connection(LinkEvent::Dropped), LinkAction::Pause(5000));
    assert_eq!(connection(LinkEvent::ConnectFailed), LinkAction::Pause(5000));
    assert_eq!(connection(LinkEvent::Waited), LinkAction::Connect);
}
