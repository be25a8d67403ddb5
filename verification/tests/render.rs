use homelab::frame::{BinaryColor, Frame};
use homelab::model::{Down, Group, Hosts, Kuma, Node, Status};
use homelab::raster::{fill, outline, text, text_right, Font};
use homelab::render::{
    draw, duration, footer, footer_line, gauge, group, groups, header, hline, host, hosts, issue,
    issues, message, percent, summary, try_draw, Room,
};
use homelab::text::Number;

/// A number in the pieces in which it is written: whole digits, point, fraction.
fn number(text: &str) -> Number {
    let pieces = match text.find('.') {
        Some(at) => vec![text[..at].to_string(), ".".to_string(), text[at + 1..].to_string()],
        None => vec![text.to_string()],
    };
    Number { pieces }
}

fn kuma() -> Kuma {
    Kuma {
        ok: true,
        up: 54,
        total: 56,
        unsettled: 2,
        groups: heapless::Vec::new(),
        down: heapless::Vec::new(),
        down_more: 0,
    }
}

fn status() -> Status {
    Status {
        age: 21,
        generated_at: heapless::String::try_from("07-23 14:02").unwrap(),
        stale: false,
        ready: true,
        kuma: kuma(),
        hosts: Hosts { ok: true, nodes: heapless::Vec::new() },
    }
}

fn node(name: &str) -> Node {
    Node {
        name: heapless::String::try_from(name).unwrap(),
        cpu: Some(number("12")),
        mem: Some(number("100")),
        disk: None,
        load: Some(number("0.4")),
        up_d: Some(number("19")),
    }
}

fn add_group(status: &mut Status, label: &str, up: u16, total: u16) {
    let label = heapless::String::try_from(label).unwrap();
    assert!(status.kuma.groups.push(Group { label, up, total }).is_ok());
}

fn add_down(status: &mut Status, name: &str, secs: Option<u32>) {
    let name = heapless::String::try_from(name).unwrap();
    assert!(status.kuma.down.push(Down { name, secs }).is_ok());
}

fn room() -> Option<Room> {
    Some(Room { temp_c: number("23.4"), hum_pct: number("41") })
}

fn same(a: &Frame, b: &Frame) -> bool {
    a.as_bytes()[..] == b.as_bytes()[..]
}

#[test]
fn durations_are_compact() {
    assert_eq!(duration(0), "0s");
    assert_eq!(duration(58), "58s");
    assert_eq!(duration(59), "59s");
    assert_eq!(duration(60), "1m");
    assert_eq!(duration(41 * 60 + 59), "41m");
    assert_eq!(duration(3_600), "1h00m");
    assert_eq!(duration(6 * 3_600 + 2 * 60), "6h02m");
    assert_eq!(duration(86_399), "23h59m");
    assert_eq!(duration(86_400), "1d");
    assert_eq!(duration(19 * 86_400), "19d");
    assert_eq!(duration(u32::MAX), "49710d");
}

#[test]
fn headline() {
    assert_eq!(summary(&kuma()), "54/56 UP");
    let mut down = kuma();
    down.ok = false;
    assert_eq!(summary(&down), "KUMA ERR");
    let mut full = kuma();
    full.up = u16::MAX;
    full.total = u16::MAX;
    assert_eq!(summary(&full), "65535/65535 UP");
}

#[test]
fn gauges_carry_their_unit() {
    assert_eq!(gauge(&Some(number("12")), "%"), "12%");
    assert_eq!(gauge(&Some(number("0.4")), ""), "0.4");
    assert_eq!(gauge(&None, "%"), "");
    assert_eq!(gauge(&Some(number("123456789")), "%"), "123456789%");
    assert_eq!(gauge(&Some(number("1234567890")), "%"), "1234567890");
}

#[test]
fn long_gauges_are_kept_in_part() {
    assert_eq!(gauge(&Some(number("123456792.0")), ""), "123456792.");
    assert_eq!(gauge(&Some(number("1234567936.0")), ""), "1234567936");
    let negative = Number { pieces: vec!["-".to_string(), "12345678900".to_string()] };
    assert_eq!(gauge(&Some(negative), "%"), "-");
}

#[test]
fn missing_percentage_draws_nothing() {
    let mut frame = Frame::new();
    percent(&mut frame, &None, 120, 241);
    assert!(same(&frame, &Frame::new()));
}

#[test]
fn rule_runs_between_the_margins() {
    let mut a = Frame::new();
    let mut b = Frame::new();
    hline(&mut a, 127);
    fill(&mut b, 4, 127, 393, 1, true);
    assert!(same(&a, &b));
}

#[test]
fn fresh_header() {
    let mut a = Frame::new();
    header(&mut a, &status(), &room());
    let mut b = Frame::new();
    text(&mut b, "HOMELAB", 4, 5, Font::Big, true);
    text(&mut b, "54/56 UP", 160, 5, Font::Big, true);
    text_right(&mut b, "23.4C 41%", 396, 9, Font::Small, true);
    hline(&mut b, 30);
    assert!(same(&a, &b));
}

#[test]
fn header_without_a_reading() {
    let mut a = Frame::new();
    header(&mut a, &status(), &None);
    let mut b = Frame::new();
    text(&mut b, "HOMELAB", 4, 5, Font::Big, true);
    text(&mut b, "54/56 UP", 160, 5, Font::Big, true);
    hline(&mut b, 30);
    assert!(same(&a, &b));
}

#[test]
fn stale_header_is_inverted() {
    let mut stale = status();
    stale.stale = true;
    let mut early = status();
    early.ready = false;
    let mut b = Frame::new();
    fill(&mut b, 0, 0, 400, 30, true);
    text(&mut b, "STALE", 4, 5, Font::Big, false);
    text(&mut b, "54/56 UP", 160, 5, Font::Big, false);
    text_right(&mut b, "23.4C 41%", 396, 9, Font::Small, false);
    for s in [stale, early] {
        let mut a = Frame::new();
        header(&mut a, &s, &room());
        assert!(same(&a, &b));
    }
}

#[test]
fn groups_fill_two_columns() {
    let mut s = status();
    for i in 0..10u16 {
        add_group(&mut s, "group", i, 9);
    }
    let mut a = Frame::new();
    groups(&mut a, &s);
    let mut b = Frame::new();
    for i in 0..10i32 {
        let x = 4 + (i / 5) * 196;
        let y = 36 + (i % 5) * 18;
        text(&mut b, "group", x, y, Font::Small, true);
        text_right(&mut b, &format!("{}/9", i), x + 188, y, Font::Small, true);
        outline(&mut b, x, y + 11, 150, 4, 1);
        fill(&mut b, x, y + 11, 150 * i / 9, 4, true);
    }
    hline(&mut b, 127);
    assert!(same(&a, &b));
}

#[test]
fn full_bar_is_solid_and_degraded_bar_is_not() {
    let mut full = Frame::new();
    group(&mut full, 0, "", 8, 8);
    let mut solid = Frame::new();
    text_right(&mut solid, "8/8", 192, 36, Font::Small, true);
    fill(&mut solid, 4, 47, 150, 4, true);
    assert!(same(&full, &solid));

    let mut degraded = Frame::new();
    group(&mut degraded, 0, "", 7, 8);
    let mut expected = Frame::new();
    text_right(&mut expected, "7/8", 192, 36, Font::Small, true);
    outline(&mut expected, 4, 47, 150, 4, 1);
    fill(&mut expected, 4, 47, 131, 4, true);
    assert!(same(&degraded, &expected));
}

#[test]
fn empty_group_has_an_empty_bar() {
    let mut a = Frame::new();
    group(&mut a, 3, "none", 0, 0);
    let mut b = Frame::new();
    text(&mut b, "none", 4, 90, Font::Small, true);
    text_right(&mut b, "0/0", 192, 90, Font::Small, true);
    outline(&mut b, 4, 101, 150, 4, 1);
    assert!(same(&a, &b));
}

#[test]
fn all_services_up() {
    let mut a = Frame::new();
    issues(&mut a, &status());
    let mut b = Frame::new();
    text(&mut b, "ALL SERVICES UP", 4, 132, Font::WideBold, true);
    hline(&mut b, 224);
    assert!(same(&a, &b));
}

#[test]
fn unreachable_kuma_is_said() {
    let mut s = status();
    s.kuma.ok = false;
    add_down(&mut s, "ignored", None);
    let mut a = Frame::new();
    issues(&mut a, &s);
    let mut b = Frame::new();
    text(&mut b, "uptime kuma unreachable", 4, 132, Font::Bold, true);
    hline(&mut b, 224);
    assert!(same(&a, &b));
}

#[test]
fn down_monitors_are_listed() {
    let mut s = status();
    add_down(&mut s, "grafana", Some(41 * 60));
    add_down(&mut s, "registry", None);
    s.kuma.down_more = 3;
    let mut a = Frame::new();
    issues(&mut a, &s);
    let mut b = Frame::new();
    text(&mut b, "DOWN (5)", 4, 132, Font::Bold, true);
    text(&mut b, "grafana", 10, 146, Font::Small, true);
    text_right(&mut b, "41m", 396, 146, Font::Small, true);
    text(&mut b, "registry", 10, 159, Font::Small, true);
    text_right(&mut b, "?", 396, 159, Font::Small, true);
    text_right(&mut b, "+3 more", 396, 132, Font::Small, true);
    hline(&mut b, 224);
    assert!(same(&a, &b));
}

#[test]
fn one_issue_row() {
    let mut a = Frame::new();
    issue(&mut a, 5, "last", Some(58));
    let mut b = Frame::new();
    text(&mut b, "last", 10, 211, Font::Small, true);
    text_right(&mut b, "58s", 396, 211, Font::Small, true);
    assert!(same(&a, &b));
}

#[test]
fn percentages() {
    let mut a = Frame::new();
    percent(&mut a, &Some(number("97")), 120, 241);
    percent(&mut a, &None, 180, 241);
    let mut b = Frame::new();
    text(&mut b, "97%", 120, 241, Font::Small, true);
    assert!(same(&a, &b));
}

fn host_table(b: &mut Frame) {
    for (label, x) in [("HOST", 4), ("CPU", 120), ("MEM", 180), ("DISK", 240), ("LOAD", 300), ("UP", 356)] {
        text(b, label, x, 229, Font::Small, true);
    }
}

fn host_row(b: &mut Frame, name: &str, y: i32) {
    for (label, x) in [(name, 4), ("12%", 120), ("100%", 180), ("0.4", 300), ("19d", 356)] {
        text(b, label, x, y, Font::Small, true);
    }
}

#[test]
fn nodes_stop_short_of_the_footer() {
    let mut s = status();
    for name in ["pi01", "prd01", "prd02", "left-out"] {
        assert!(s.hosts.nodes.push(node(name)).is_ok());
    }
    let mut a = Frame::new();
    hosts(&mut a, &s);
    let mut b = Frame::new();
    host_table(&mut b);
    host_row(&mut b, "pi01", 241);
    host_row(&mut b, "prd01", 253);
    host_row(&mut b, "prd02", 265);
    assert!(same(&a, &b));
}

#[test]
fn one_node_row() {
    let mut a = Frame::new();
    host(&mut a, 1, "prd01", &node("unused"));
    let mut b = Frame::new();
    host_row(&mut b, "prd01", 253);
    assert!(same(&a, &b));
}

#[test]
fn losing_prometheus_leaves_the_rest() {
    let mut with = status();
    add_group(&mut with, "core", 7, 8);
    add_down(&mut with, "grafana", Some(90_000));
    let mut without = status();
    add_group(&mut without, "core", 7, 8);
    add_down(&mut without, "grafana", Some(90_000));
    for name in ["pi01", "prd01", "prd02"] {
        assert!(with.hosts.nodes.push(node(name)).is_ok());
    }
    without.hosts.ok = false;
    let mut a = Frame::new();
    let mut b = Frame::new();
    draw(&mut a, &with, &room());
    draw(&mut b, &without, &room());
    assert!(!same(&a, &b));
    fill(&mut a, 0, 229, 400, 46, true);
    fill(&mut b, 0, 229, 400, 46, true);
    assert!(same(&a, &b));
}

#[test]
fn missing_prometheus_is_said() {
    let mut s = status();
    s.hosts.ok = false;
    assert!(s.hosts.nodes.push(node("pi01")).is_ok());
    let mut a = Frame::new();
    hosts(&mut a, &s);
    let mut b = Frame::new();
    text(&mut b, "host metrics unavailable (prometheus)", 4, 229, Font::Small, true);
    assert!(same(&a, &b));
}

#[test]
fn footer_reports_unsettled_monitors() {
    let mut a = Frame::new();
    footer(&mut a, &status());
    let mut b = Frame::new();
    hline(&mut b, 285);
    text(&mut b, "2 pending/maint", 4, 288, Font::Small, true);
    text_right(&mut b, "updated 07-23 14:02", 396, 288, Font::Small, true);
    assert!(same(&a, &b));

    let mut c = Frame::new();
    footer_line(&mut c, 0, "now");
    let mut d = Frame::new();
    hline(&mut d, 285);
    text_right(&mut d, "updated now", 396, 288, Font::Small, true);
    assert!(same(&c, &d));
}

#[test]
fn screen_does_not_depend_on_what_was_there() {
    let mut s = status();
    add_group(&mut s, "core", 8, 8);
    add_down(&mut s, "grafana", Some(90_000));
    assert!(s.hosts.nodes.push(node("pi01")).is_ok());
    let mut a = Frame::new();
    draw(&mut a, &s, &room());
    let mut b = Frame::new();
    b.clear(BinaryColor::On);
    draw(&mut b, &s, &room());
    assert!(same(&a, &b));

    let mut c = Frame::new();
    header(&mut c, &s, &room());
    groups(&mut c, &s);
    issues(&mut c, &s);
    hosts(&mut c, &s);
    footer(&mut c, &s);
    assert!(same(&a, &c));
}

#[test]
fn uncountable_document_is_not_drawn() {
    let mut s = status();
    add_down(&mut s, "grafana", None);
    s.kuma.down_more = u16::MAX;
    let mut a = Frame::new();
    a.clear(BinaryColor::On);
    assert!(!try_draw(&mut a, &s, &None));
    assert!(a.as_bytes().iter().all(|b| *b == 0x00));
    s.kuma.down_more = u16::MAX - 1;
    assert!(try_draw(&mut a, &s, &None));
    s.kuma.ok = false;
    s.kuma.down_more = u16::MAX;
    assert!(try_draw(&mut a, &s, &None));
}

#[test]
fn down_total_counts_trimmed_monitors() {
    let mut s = status();
    assert_eq!(s.kuma.down_total(), Some(0));
    add_down(&mut s, "grafana", None);
    s.kuma.down_more = 7;
    assert_eq!(s.kuma.down_total(), Some(8));
    s.kuma.down_more = u16::MAX;
    assert_eq!(s.kuma.down_total(), None);
}

#[test]
fn standalone_message() {
    let mut a = Frame::new();
    a.clear(BinaryColor::On);
    message(&mut a, "NO DATA", "pi01 did not answer in time");
    let mut b = Frame::new();
    text(&mut b, "NO DATA", 4, 120, Font::Big, true);
    text(&mut b, "pi01 did not answer in time", 4, 150, Font::Small, true);
    assert!(same(&a, &b));
}
