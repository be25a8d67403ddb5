use homelab::frame::{BinaryColor, Frame};
use homelab::influx::{
    headers, heartbeat_line, next_heartbeat, outcome_line, post_influx, sample_line, write_request,
    write_url,
    Database, PostEvent, PostNext,
};
use homelab::model::{Hosts, Kuma, Status};
use homelab::monitor;
use homelab::monitor::{Action, Monitor, Polled, Readout, Series};
use homelab::net::FetchError;
use homelab::patterns::Pattern;
use homelab::raster;
use homelab::raster::{fill, outline, text, Font};
use homelab::refresh::{splash, still_waiting, Outcome, Reaction, Refresh};
use homelab::render::{draw, message};
use homelab::request::Verb;
use homelab::scd41::Fault;
use homelab::text::Number;

/// A number in the pieces in which it is written: whole digits, point, fraction.
fn number(text: &str) -> Number {
    let pieces = match text.find('.') {
        Some(at) => vec![text[..at].to_string(), ".".to_string(), text[at + 1..].to_string()],
        None => vec![text.to_string()],
    };
    Number { pieces }
}

fn same(a: &Frame, b: &Frame) -> bool {
    a.as_bytes()[..] == b.as_bytes()[..]
}

#[test]
fn write_is_a_post_of_the_record() {
    let db = Database {
        url: "http://influx:8086".to_string(),
        org: "home".to_string(),
        bucket: "air".to_string(),
        token: "secret".to_string(),
    };
    assert_eq!(write_url(&db), "http://influx:8086/api/v2/write?org=home&bucket=air&precision=s");
    let [auth, kind] = headers(&db);
    assert_eq!(auth, ("Authorization", "Token secret".to_string()));
    assert_eq!(kind, ("Content-Type", "text/plain; charset=utf-8".to_string()));
    let request = write_request(&db, "air co2=1i");
    assert_eq!(request.method, Verb::Post);
    assert_eq!(request.url, write_url(&db));
    assert_eq!(request.headers, headers(&db));
    assert_eq!(request.body, Some("air co2=1i".to_string()));
}

#[test]
fn sample_record_in_line_protocol() {
    assert_eq!(
        sample_line("air", "room=kitchen", 612, &number("23.41"), &number("40.70")),
        "air,room=kitchen co2=612i,temp=23.41,humid=40.70"
    );
    let tags = "t".repeat(188);
    assert_eq!(sample_line("air", &tags, 612, &number("1"), &number("2")), format!("air,{}", tags));
    let tags = "t".repeat(169);
    assert_eq!(
        sample_line("air", &tags, 612, &number("23.41"), &number("40.70")),
        format!("air,{} co2=612i,temp=23.", tags)
    );
    let tags = "t".repeat(189);
    assert_eq!(sample_line("air", &tags, 612, &number("1"), &number("2")), "air,");
}

#[test]
fn heartbeat_record() {
    assert_eq!(heartbeat_line(1), "heartbeat,host=esp32s3 value=1u");
    assert_eq!(heartbeat_line(u32::MAX), "heartbeat,host=esp32s3 value=4294967295u");
    assert_eq!(next_heartbeat(0), 1);
    assert_eq!(next_heartbeat(u32::MAX), 0);
}

#[test]
fn post_outcomes() {
    assert_eq!(post_influx(PostEvent::Opened(true)), PostNext::Send);
    assert_eq!(post_influx(PostEvent::Opened(false)), PostNext::Finished(Err(())));
    assert_eq!(post_influx(PostEvent::Responded(Some(204))), PostNext::Finished(Ok(204)));
    assert_eq!(post_influx(PostEvent::Responded(Some(401))), PostNext::Finished(Ok(401)));
    assert_eq!(post_influx(PostEvent::Responded(None)), PostNext::Finished(Err(())));
    assert_eq!(outcome_line(Ok(204)), "InfluxDB: 204");
    assert_eq!(outcome_line(Err(())), "InfluxDB: err");
}

fn series() -> Series {
    Series { measurement: "air".to_string(), tags: "room=kitchen".to_string() }
}

fn measured() -> Polled {
    Polled::Measured(Readout {
        co2: 612,
        temp_shown: number("23.4"),
        hum_shown: number("41"),
        temp_sent: number("23.41"),
        hum_sent: number("40.70"),
    })
}

#[test]
fn sample_is_shown_and_sent() {
    let mut monitor = Monitor::new(true);
    let reaction = monitor.react(measured(), &series());
    assert_eq!(reaction.l1, "CO2 612 ppm");
    assert_eq!(reaction.l2, "T 23.4C H 41%");
    match reaction.action {
        Action::Post(record) => {
            assert_eq!(record, "air,room=kitchen co2=612i,temp=23.41,humid=40.70")
        }
        _ => panic!("nothing sent"),
    }
}

#[test]
fn warming_up_is_shown() {
    let mut monitor = Monitor::new(true);
    monitor.consecutive_err = 2;
    let reaction = monitor.react(Polled::NotReady, &series());
    assert_eq!((&reaction.l1[..], &reaction.l2[..]), ("SCD41 wait", "warming up"));
    assert!(matches!(reaction.action, Action::Nothing));
    assert_eq!(monitor.consecutive_err, 2);
}

#[test]
fn third_error_restarts_the_sensor() {
    let mut monitor = Monitor::new(true);
    for n in 1..=3u32 {
        assert_eq!(monitor.consecutive_err, n - 1);
        let reaction = monitor.react(Polled::Error(Fault::DrRead), &series());
        assert_eq!(reaction.l1, "SCD41 ERR");
        assert_eq!(reaction.l2, format!("@DR read x{}", n));
        assert_eq!(matches!(reaction.action, Action::Reinit), n == 3);
    }
    monitor.reinitialised(false);
    assert_eq!(monitor.consecutive_err, 0);
    match monitor.skip_poll() {
        Some(Polled::Error(Fault::NoSensor)) => {}
        _ => panic!("polled a missing sensor"),
    }
    let reaction = monitor.react(Polled::Error(Fault::NoSensor), &series());
    assert_eq!(reaction.l2, "@no sensor x1");
    monitor.reinitialised(true);
    assert!(monitor.skip_poll().is_none());
}

#[test]
fn sample_ends_a_streak() {
    let mut monitor = Monitor::new(true);
    for _ in 0..10 {
        for _ in 0..2 {
            let reaction = monitor.react(Polled::Error(Fault::RmWrite), &series());
            assert!(matches!(reaction.action, Action::Nothing));
        }
        monitor.react(measured(), &series());
        assert_eq!(monitor.consecutive_err, 0);
    }
}

#[test]
fn readout_rows() {
    assert_eq!(monitor::render("a", "b", "c"), [("a", 0), ("b", 22), ("c", 44)]);
}

fn status() -> Status {
    Status {
        age: 3,
        generated_at: heapless::String::try_from("07-23 14:02").unwrap(),
        stale: false,
        ready: true,
        kuma: Kuma {
            ok: true,
            up: 58,
            total: 58,
            unsettled: 0,
            groups: heapless::Vec::new(),
            down: heapless::Vec::new(),
            down_more: 0,
        },
        hosts: Hosts { ok: false, nodes: heapless::Vec::new() },
    }
}

#[test]
fn document_is_drawn_and_failures_wait() {
    let mut refresh = Refresh::new();
    let mut frame = Frame::new();
    let reaction = refresh.react(&mut frame, &Outcome::Fetched(status()), &None);
    assert_eq!(reaction, Reaction { flush: true, wait_secs: 30 });
    let mut good = Frame::new();
    draw(&mut good, &status(), &None);
    assert!(same(&frame, &good));

    for n in 1..=2u32 {
        let reaction = refresh.react(&mut frame, &Outcome::Failed(FetchError::Timeout), &None);
        assert_eq!(reaction, Reaction { flush: false, wait_secs: 10 });
        assert_eq!(refresh.consecutive_failures, n);
        assert!(same(&frame, &good));
    }
    for n in 3..=5u32 {
        let reaction = refresh.react(&mut frame, &Outcome::Failed(FetchError::Parse), &None);
        assert_eq!(reaction, Reaction { flush: true, wait_secs: 10 });
        assert_eq!(refresh.consecutive_failures, n);
    }
    let mut outage = Frame::new();
    message(&mut outage, "NO DATA", "response did not match expected shape");
    assert!(same(&frame, &outage));

    refresh.react(&mut frame, &Outcome::Fetched(status()), &None);
    assert_eq!(refresh.consecutive_failures, 0);
    assert!(same(&frame, &good));
}

#[test]
fn waiting_for_the_network() {
    let mut frame = Frame::new();
    splash(&mut frame);
    let mut expected = Frame::new();
    message(&mut expected, "HOMELAB", "connecting to WiFi...");
    assert!(same(&frame, &expected));
    assert_eq!(still_waiting(&mut frame, 0), 20);
    assert_eq!(still_waiting(&mut frame, 40), 60);
    message(&mut expected, "NO NETWORK", "waiting for WiFi and DHCP...");
    assert!(same(&frame, &expected));
}

#[test]
fn solid_patterns() {
    let mut frame = Frame::new();
    Pattern::AllInk.draw(&mut frame);
    assert!(frame.as_bytes().iter().all(|b| *b == 0x00));
    Pattern::AllBackground.draw(&mut frame);
    assert!(frame.as_bytes().iter().all(|b| *b == 0xFF));
}

#[test]
fn geometry_and_text_patterns() {
    let mut frame = Frame::new();
    frame.clear(BinaryColor::On);
    Pattern::Quadrants.draw(&mut frame);
    let mut expected = Frame::new();
    fill(&mut expected, 0, 0, 200, 150, true);
    fill(&mut expected, 200, 150, 200, 150, true);
    outline(&mut expected, 0, 0, 400, 300, 3);
    raster::line(&mut expected, 0, 0, 399, 299);
    raster::line(&mut expected, 399, 0, 0, 299);
    assert!(same(&frame, &expected));

    Pattern::Text.draw(&mut frame);
    let mut expected = Frame::new();
    text(&mut expected, "ST7305 OK", 20, 120, Font::Big, true);
    text(&mut expected, "TOP LEFT", 4, 4, Font::Big, true);
    text(&mut expected, "BOTTOM RIGHT", 276, 278, Font::Big, true);
    assert!(same(&frame, &expected));
}

#[test]
fn patterns_go_round() {
    let mut pattern = Pattern::AllInk;
    let mut labels = Vec::new();
    for _ in 0..4 {
        labels.push(pattern.label());
        assert!(pattern.announcement().contains(" \u{2014} expect "));
        pattern = pattern.next();
    }
    assert_eq!(labels, ["all-ink", "all-bg", "quadrants", "text"]);
    assert_eq!(pattern, Pattern::AllInk);
    assert_eq!(pattern.announcement(), "1/4 ALL INK \u{2014} expect a fully dark screen");
}
