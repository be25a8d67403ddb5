//! Screen layout for the 400x300 monochrome panel.
//!
//! The panel is 1 bit deep, so nothing can be distinguished by colour: state is
//! carried by inversion and by position. Rows are fixed-height and the section
//! boundaries are constants, so a healthy screen and a broken one put the same
//! information in the same place.
//!
//! Each function comes with a spec function that says what the canvas, the set
//! of inked pixels, is after it.

use vstd::prelude::*;

use crate::frame::{BinaryColor, Frame};
use crate::model::{down_slice, groups_slice, label_str, name_str, nodes_slice, stamp_str};
use crate::model::{Kuma, Node, Status};
use crate::raster::{fill, line, outline, text, text_right, Font};
use crate::text::{to_decimal, to_two_digits, Line, Number};

verus! {

use crate::frame::paint;
use crate::model::{down_of, groups_of, label_of, name_of, nodes_of, stamp_of, Down, Group};
use crate::raster::{
    border_shape,
    cells,
    drawable,
    law_empty_text_covers_nothing,
    near,
    rect_shape,
    right_aligned,
    text_shape,
};
use crate::text::{
    bounded,
    byte_len,
    decimal,
    joined,
    law_line_is_a_prefix,
    lemma_ascii_byte_len,
    lemma_decimal_len,
    lemma_first_piece_stays,
    lemma_four_pieces,
    lemma_number_widths,
    lemma_one_piece,
    lemma_three_pieces,
    lemma_two_pieces,
    two_digits,
};

pub const W: i32 = 400;

pub const H: i32 = 300;

pub const PAD: i32 = 4;

// Section boundaries, top-down. Fixed so the eye learns where to look.
pub const HEADER_H: i32 = 30;

pub const GROUPS_Y: i32 = 36;

pub const GROUP_ROW_H: i32 = 18;

pub const GROUP_ROWS: i32 = 5;

pub const GROUPS_END: i32 = 126;

pub const ISSUES_Y: i32 = 132;

pub const ISSUE_ROW_H: i32 = 13;

pub const ISSUES_END: i32 = 224;

pub const HOSTS_Y: i32 = 229;

pub const HOST_ROW_H: i32 = 12;

pub const FOOTER_Y: i32 = 288;

/// Width of one column of groups.
pub const COLUMN_W: i32 = 196;

/// Width of a group's bar.
pub const BAR_W: i32 = 150;

/// The inked pixels of the screen.
pub type Canvas = Set<(int, int)>;

/// Environment reading, when the sensor answered, in decimal as it is drawn.
pub struct Room {
    /// Degrees Celsius, one decimal.
    pub temp_c: Number,
    /// Relative humidity, rounded to a whole number.
    pub hum_pct: Number,
}

/// Text with its top left corner at `(x, y)`.
pub open spec fn put(c: Canvas, s: Seq<char>, x: int, y: int, font: Font, ink: bool) -> Canvas {
    paint(c, text_shape(s, x, y, font), ink)
}

/// Text that ends at `right`.
pub open spec fn put_right(
    c: Canvas,
    s: Seq<char>,
    right: int,
    y: int,
    font: Font,
    ink: bool,
) -> Canvas {
    paint(c, text_shape(s, right_aligned(right, s, font), y, font), ink)
}

/// A rule across the screen.
pub open spec fn rule(c: Canvas, y: int) -> Canvas {
    paint(c, rect_shape(PAD as int, y, W - 2 * PAD + 1, 1), true)
}

/// Draw a rule across the screen.
pub fn hline(target: &mut Frame, y: i32)
    requires
        near(y as int),
    ensures
        final(target)@ == rule(old(target)@, y as int),
{
    line(target, PAD, y, W - PAD, y);
}

/// Compact duration: `19d`, `6h02m`, `41m`, `58s`.
pub open spec fn duration_text(secs: nat) -> Seq<char> {
    if secs >= 86_400 {
        decimal(secs / 86_400) + "d"@
    } else if secs >= 3_600 {
        decimal(secs / 3_600) + "h"@ + two_digits((secs % 3_600) / 60) + "m"@
    } else if secs >= 60 {
        decimal(secs / 60) + "m"@
    } else {
        decimal(secs) + "s"@
    }
}

/// A number of up to five digits is at most five bytes.
proof fn lemma_short_number(n: nat)
    requires
        n < 100_000,
    ensures
        byte_len(decimal(n)) <= 5,
{
    lemma_number_widths();
    lemma_decimal_len(n, 5);
}

/// A number of up to two digits is at most two bytes, padded or not.
proof fn lemma_two_digit_number(n: nat)
    requires
        n < 100,
    ensures
        byte_len(decimal(n)) <= 2,
        byte_len(two_digits(n)) <= 2,
{
    reveal(vstd::arithmetic::power::pow);
    reveal_with_fuel(vstd::arithmetic::power::pow, 3);
    lemma_decimal_len(n, 2);
    if n < 10 {
        lemma_ascii_byte_len(two_digits(n));
    }
}

/// Compact duration: `19d`, `6h02m`, `41m`, `58s`.
pub fn duration(secs: u32) -> (out: String)
    ensures
        out@ == duration_text(secs as nat),
        byte_len(out@) <= 10,
{
    proof {
        reveal_strlit("d");
        reveal_strlit("h");
        reveal_strlit("m");
        reveal_strlit("s");
        lemma_ascii_byte_len("d"@);
        lemma_ascii_byte_len("h"@);
        lemma_ascii_byte_len("m"@);
        lemma_ascii_byte_len("s"@);
    }
    let line: Line<10> = Line::new();
    let line = if secs >= 86_400 {
        let days = to_decimal(secs / 86_400);
        let line = line.put(days.as_str()).put("d");
        proof {
            lemma_short_number((secs / 86_400) as nat);
            lemma_two_pieces(days@, "d"@, 10);
            assert(line@ =~= seq![days@, "d"@]);
        }
        line
    } else if secs >= 3_600 {
        let hours = to_decimal(secs / 3_600);
        let minutes = to_two_digits((secs % 3_600) / 60);
        let line = line.put(hours.as_str()).put("h").put(minutes.as_str()).put("m");
        proof {
            lemma_two_digit_number((secs / 3_600) as nat);
            lemma_two_digit_number(((secs % 3_600) / 60) as nat);
            lemma_four_pieces(hours@, "h"@, minutes@, "m"@, 10);
            assert(line@ =~= seq![hours@, "h"@, minutes@, "m"@]);
        }
        line
    } else if secs >= 60 {
        let minutes = to_decimal(secs / 60);
        let line = line.put(minutes.as_str()).put("m");
        proof {
            lemma_short_number((secs / 60) as nat);
            lemma_two_pieces(minutes@, "m"@, 10);
            assert(line@ =~= seq![minutes@, "m"@]);
        }
        line
    } else {
        let seconds = to_decimal(secs);
        let line = line.put(seconds.as_str()).put("s");
        proof {
            lemma_short_number(secs as nat);
            lemma_two_pieces(seconds@, "s"@, 10);
            assert(line@ =~= seq![seconds@, "s"@]);
        }
        line
    };
    proof {
        law_line_is_a_prefix(line@, 10);
    }
    line.finish()
}

/// "n/m".
pub open spec fn ratio_text(up: u16, total: u16) -> Seq<char> {
    decimal(up as nat) + "/"@ + decimal(total as nat)
}

/// The number the screen exists to show.
pub open spec fn summary_text(kuma: Kuma) -> Seq<char> {
    if kuma.ok {
        decimal(kuma.up as nat) + "/"@ + decimal(kuma.total as nat) + " UP"@
    } else {
        "KUMA ERR"@
    }
}

/// The number the screen exists to show.
pub fn summary(kuma: &Kuma) -> (out: String)
    ensures
        out@ == summary_text(*kuma),
        byte_len(out@) <= 24,
{
    proof {
        reveal_strlit("/");
        reveal_strlit(" UP");
        reveal_strlit("KUMA ERR");
        lemma_ascii_byte_len("/"@);
        lemma_ascii_byte_len(" UP"@);
        lemma_ascii_byte_len("KUMA ERR"@);
        lemma_short_number(kuma.up as nat);
        lemma_short_number(kuma.total as nat);
    }
    let line: Line<24> = Line::new();
    let line = if kuma.ok {
        let up = to_decimal(kuma.up as u32);
        let total = to_decimal(kuma.total as u32);
        let line = line.put(up.as_str()).put("/").put(total.as_str()).put(" UP");
        proof {
            lemma_four_pieces(up@, "/"@, total@, " UP"@, 24);
            assert(line@ =~= seq![up@, "/"@, total@, " UP"@]);
        }
        line
    } else {
        let line = line.put("KUMA ERR");
        proof {
            lemma_one_piece("KUMA ERR"@, 24);
            assert(line@ =~= seq!["KUMA ERR"@]);
        }
        line
    };
    proof {
        law_line_is_a_prefix(line@, 24);
    }
    line.finish()
}

/// The room's temperature and humidity.
pub open spec fn room_text(room: Room) -> Seq<char> {
    bounded(room.temp_c@ + seq!["C "@] + room.hum_pct@ + seq!["%"@], 20)
}

/// Whether the header has to raise the alarm: the document is old, or there was
/// none yet.
pub open spec fn alarm_of(status: Status) -> bool {
    status.stale || !status.ready
}

/// The header. A stale document inverts it outright, which is visible from
/// across the room.
pub open spec fn header_on(c: Canvas, alarm: bool, summary: Seq<char>, room: Option<Room>) -> Canvas {
    let ink = !alarm;
    let c = if alarm {
        paint(c, rect_shape(0, 0, W as int, HEADER_H as int), true)
    } else {
        c
    };
    let title = if alarm {
        "STALE"@
    } else {
        "HOMELAB"@
    };
    let c = put(c, title, PAD as int, 5, Font::Big, ink);
    let c = put(c, summary, W / 2 - 40, 5, Font::Big, ink);
    let c = match room {
        Some(room) => put_right(c, room_text(room), W - PAD, 9, Font::Small, ink),
        None => c,
    };
    if alarm {
        c
    } else {
        rule(c, HEADER_H as int)
    }
}

/// Draw the header.
pub fn header(target: &mut Frame, status: &Status, room: &Option<Room>)
    ensures
        final(target)@ == header_on(
            old(target)@,
            alarm_of(*status),
            summary_text(status.kuma),
            *room,
        ),
{
    let alarm = status.stale || !status.ready;
    if alarm {
        fill(target, 0, 0, W, HEADER_H, true);
    }
    proof {
        reveal_strlit("STALE");
        reveal_strlit("HOMELAB");
        lemma_ascii_byte_len("STALE"@);
        lemma_ascii_byte_len("HOMELAB"@);
    }
    text(
        target,
        if alarm {
            "STALE"
        } else {
            "HOMELAB"
        },
        PAD,
        5,
        Font::Big,
        !alarm,
    );

    let headline = summary(&status.kuma);
    text(target, headline.as_str(), W / 2 - 40, 5, Font::Big, !alarm);

    if let Some(room) = room {
        let env: Line<20> = Line::new().put_number(&room.temp_c).put("C ").put_number(
            &room.hum_pct,
        ).put("%");
        proof {
            assert(env@ =~= room.temp_c@ + seq!["C "@] + room.hum_pct@ + seq!["%"@]);
            law_line_is_a_prefix(env@, 20);
        }
        let env = env.finish();
        text_right(target, env.as_str(), W - PAD, 9, Font::Small, !alarm);
    }
    if !alarm {
        hline(target, HEADER_H);
    }
}

/// Left edge of the group in place `i`.
pub open spec fn group_x(i: int) -> int {
    PAD + (i / GROUP_ROWS as int) * COLUMN_W
}

/// Top of the group in place `i`.
pub open spec fn group_y(i: int) -> int {
    GROUPS_Y + (i % GROUP_ROWS as int) * GROUP_ROW_H
}

/// How far a group's bar is filled.
pub open spec fn bar_fill(up: int, total: int) -> int {
    (BAR_W * up) / total
}

/// One group: its label, its count and its bar. A full bar is solid; a degraded
/// one is partially filled, so "not full" reads at a glance without counting.
pub open spec fn group_on(c: Canvas, i: int, label: Seq<char>, up: u16, total: u16) -> Canvas {
    let (x, y) = (group_x(i), group_y(i));
    let c = put(c, label, x, y, Font::Small, true);
    let c = put_right(c, ratio_text(up, total), x + COLUMN_W - PAD * 2, y, Font::Small, true);
    let c = paint(c, border_shape(x, y + 11, BAR_W as int, 4, 1), true);
    if total > 0 {
        paint(c, rect_shape(x, y + 11, bar_fill(up as int, total as int), 4), true)
    } else {
        c
    }
}

/// The groups in their places.
pub open spec fn group_rows_on(c: Canvas, groups: Seq<Group>) -> Canvas
    decreases groups.len(),
{
    if groups.len() == 0 {
        c
    } else {
        let g = groups.last();
        group_on(
            group_rows_on(c, groups.drop_last()),
            groups.len() - 1,
            label_of(g.label),
            g.up,
            g.total,
        )
    }
}

/// The groups, and the rule under them.
pub open spec fn groups_on(c: Canvas, groups: Seq<Group>) -> Canvas {
    rule(group_rows_on(c, groups), GROUPS_END + 1)
}

/// Draw one group in place `i`.
pub fn group(target: &mut Frame, i: usize, label: &str, up: u16, total: u16)
    requires
        i < 10,
        drawable(label@),
    ensures
        final(target)@ == group_on(old(target)@, i as int, label@, up, total),
{
    let column: i32 = i as i32 / GROUP_ROWS;
    let row: i32 = i as i32 % GROUP_ROWS;
    let x: i32 = PAD + column * COLUMN_W;
    let y: i32 = GROUPS_Y + row * GROUP_ROW_H;

    text(target, label, x, y, Font::Small, true);

    let up_text = to_decimal(up as u32);
    let total_text = to_decimal(total as u32);
    let count: Line<12> = Line::new().put(up_text.as_str()).put("/").put(total_text.as_str());
    proof {
        reveal_strlit("/");
        lemma_ascii_byte_len("/"@);
        lemma_short_number(up as nat);
        lemma_short_number(total as nat);
        lemma_three_pieces(up_text@, "/"@, total_text@, 12);
        assert(count@ =~= seq![up_text@, "/"@, total_text@]);
        law_line_is_a_prefix(count@, 12);
    }
    let count = count.finish();
    text_right(target, count.as_str(), x + COLUMN_W - PAD * 2, y, Font::Small, true);

    let bar_y: i32 = y + 11;
    outline(target, x, bar_y, BAR_W, 4, 1);
    if total > 0 {
        proof {
            lemma_bar_fill(up as int, total as int);
        }
        let filled: i32 = BAR_W * up as i32 / total as i32;
        fill(target, x, bar_y, filled, 4, true);
    }
}

/// The fill of a bar stays in range.
proof fn lemma_bar_fill(up: int, total: int)
    requires
        0 <= up <= 65_535,
        0 < total <= 65_535,
    ensures
        0 <= bar_fill(up, total) <= BAR_W * up <= 9_830_250,
{
    let a = BAR_W * up;
    assert(0 <= a / total <= a) by (nonlinear_arith)
        requires
            0 <= a,
            0 < total,
    ;
}

/// Draw the groups.
pub fn groups(target: &mut Frame, status: &Status)
    ensures
        final(target)@ == groups_on(old(target)@, groups_of(status.kuma.groups)),
{
    let items = groups_slice(&status.kuma.groups);
    let mut i: usize = 0;
    assert(items@.take(0) =~= Seq::<Group>::empty());
    while i < items.len()
        invariant
            i <= items@.len() <= 10,
            target@ == group_rows_on(old(target)@, items@.take(i as int)),
        decreases items@.len() - i,
    {
        let g = &items[i];
        group(target, i, label_str(&g.label), g.up, g.total);
        i += 1;
        assert(items@.take(i as int).drop_last() =~= items@.take(i - 1));
    }
    assert(items@.take(i as int) =~= items@);

    hline(target, GROUPS_END + 1);
}

/// How long a monitor has been down, as far as that is known.
pub open spec fn elapsed_text(secs: Option<u32>) -> Seq<char> {
    match secs {
        Some(secs) => duration_text(secs as nat),
        None => "?"@,
    }
}

/// Top of the down monitor in place `i`.
pub open spec fn issue_y(i: int) -> int {
    ISSUES_Y + 14 + i * ISSUE_ROW_H
}

/// One down monitor: its name, and for how long.
pub open spec fn issue_on(c: Canvas, i: int, name: Seq<char>, secs: Option<u32>) -> Canvas {
    let c = put(c, name, PAD + 6, issue_y(i), Font::Small, true);
    put_right(c, elapsed_text(secs), W - PAD, issue_y(i), Font::Small, true)
}

/// The down monitors in their places.
pub open spec fn issue_rows_on(c: Canvas, down: Seq<Down>) -> Canvas
    decreases down.len(),
{
    if down.len() == 0 {
        c
    } else {
        issue_on(
            issue_rows_on(c, down.drop_last()),
            down.len() - 1,
            name_of(down.last().name),
            down.last().secs,
        )
    }
}

/// The heading over the down monitors, with how many there are.
pub open spec fn down_text(count: nat) -> Seq<char> {
    "DOWN ("@ + decimal(count) + ")"@
}

/// How many down monitors the document left out.
pub open spec fn more_text(more: u16) -> Seq<char> {
    "+"@ + decimal(more as nat) + " more"@
}

/// The down monitors, and the rule under them.
pub open spec fn issues_on(c: Canvas, ok: bool, down: Seq<Down>, more: u16) -> Canvas {
    let c = if !ok {
        put(c, "uptime kuma unreachable"@, PAD as int, ISSUES_Y as int, Font::Bold, true)
    } else if down.len() == 0 {
        put(c, "ALL SERVICES UP"@, PAD as int, ISSUES_Y as int, Font::WideBold, true)
    } else {
        let c = put(
            c,
            down_text(down.len() + more as nat),
            PAD as int,
            ISSUES_Y as int,
            Font::Bold,
            true,
        );
        let c = issue_rows_on(c, down);
        if more > 0 {
            put_right(c, more_text(more), W - PAD, ISSUES_Y as int, Font::Small, true)
        } else {
            c
        }
    };
    rule(c, ISSUES_END as int)
}

/// Draw one down monitor in place `i`.
pub fn issue(target: &mut Frame, i: usize, name: &str, secs: Option<u32>)
    requires
        i < 6,
        drawable(name@),
    ensures
        final(target)@ == issue_on(old(target)@, i as int, name@, secs),
{
    let y: i32 = ISSUES_Y + 14 + i as i32 * ISSUE_ROW_H;
    text(target, name, PAD + 6, y, Font::Small, true);
    let elapsed = match secs {
        Some(secs) => duration(secs),
        None => {
            let unknown: Line<10> = Line::new().put("?");
            proof {
                reveal_strlit("?");
                lemma_ascii_byte_len("?"@);
                lemma_one_piece("?"@, 10);
                assert(unknown@ =~= seq!["?"@]);
            }
            unknown.finish()
        },
    };
    text_right(target, elapsed.as_str(), W - PAD, y, Font::Small, true);
}

/// The heading over `count` down monitors.
fn down_title(count: u16) -> (out: String)
    ensures
        out@ == down_text(count as nat),
        byte_len(out@) <= 24,
{
    let number = to_decimal(count as u32);
    let line: Line<24> = Line::new().put("DOWN (").put(number.as_str()).put(")");
    proof {
        reveal_strlit("DOWN (");
        reveal_strlit(")");
        lemma_ascii_byte_len("DOWN ("@);
        lemma_ascii_byte_len(")"@);
        lemma_short_number(count as nat);
        lemma_three_pieces("DOWN ("@, number@, ")"@, 24);
        assert(line@ =~= seq!["DOWN ("@, number@, ")"@]);
        law_line_is_a_prefix(line@, 24);
    }
    line.finish()
}

/// The note on `more` down monitors that were left out.
fn more_note(more: u16) -> (out: String)
    ensures
        out@ == more_text(more),
        byte_len(out@) <= 20,
{
    let number = to_decimal(more as u32);
    let line: Line<20> = Line::new().put("+").put(number.as_str()).put(" more");
    proof {
        reveal_strlit("+");
        reveal_strlit(" more");
        lemma_ascii_byte_len("+"@);
        lemma_ascii_byte_len(" more"@);
        lemma_short_number(more as nat);
        lemma_three_pieces("+"@, number@, " more"@, 20);
        assert(line@ =~= seq!["+"@, number@, " more"@]);
        law_line_is_a_prefix(line@, 20);
    }
    line.finish()
}

/// Draw the down monitors.
pub fn issues(target: &mut Frame, status: &Status)
    requires
        status.kuma.ok ==> down_of(status.kuma.down).len() + status.kuma.down_more <= u16::MAX,
    ensures
        final(target)@ == issues_on(
            old(target)@,
            status.kuma.ok,
            down_of(status.kuma.down),
            status.kuma.down_more,
        ),
{
    proof {
        reveal_strlit("uptime kuma unreachable");
        reveal_strlit("ALL SERVICES UP");
        lemma_ascii_byte_len("uptime kuma unreachable"@);
        lemma_ascii_byte_len("ALL SERVICES UP"@);
    }
    if !status.kuma.ok {
        text(target, "uptime kuma unreachable", PAD, ISSUES_Y, Font::Bold, true);
        hline(target, ISSUES_END);
        return;
    }
    let down = down_slice(&status.kuma.down);
    if down.len() == 0 {
        text(target, "ALL SERVICES UP", PAD, ISSUES_Y, Font::WideBold, true);
        hline(target, ISSUES_END);
        return;
    }
    let more: u16 = status.kuma.down_more;
    let title = down_title(down.len() as u16 + more);
    text(target, title.as_str(), PAD, ISSUES_Y, Font::Bold, true);

    let ghost titled = target@;
    let mut i: usize = 0;
    assert(down@.take(0) =~= Seq::<Down>::empty());
    while i < down.len()
        invariant
            i <= down@.len() <= 6,
            target@ == issue_rows_on(titled, down@.take(i as int)),
        decreases down@.len() - i,
    {
        let d = &down[i];
        issue(target, i, name_str(&d.name), d.secs);
        i += 1;
        assert(down@.take(i as int).drop_last() =~= down@.take(i - 1));
    }
    assert(down@.take(i as int) =~= down@);

    if more > 0 {
        let note = more_note(more);
        text_right(target, note.as_str(), W - PAD, ISSUES_Y, Font::Small, true);
    }
    hline(target, ISSUES_END);
}

/// A gauge with its unit, or nothing where the node does not have it.
pub open spec fn gauge_text(value: Option<Number>, unit: Seq<char>) -> Seq<char> {
    match value {
        Some(value) => bounded(value@.push(unit), 10),
        None => Seq::empty(),
    }
}

/// A gauge with its unit, or nothing where the node does not have it.
pub fn gauge(value: &Option<Number>, unit: &str) -> (out: String)
    ensures
        out@ == gauge_text(*value, unit@),
        byte_len(out@) <= 10,
{
    let line: Line<10> = Line::new();
    let line = match value {
        Some(value) => {
            let line = line.put_number(value).put(unit);
            assert(line@ =~= value@.push(unit@));
            line
        },
        None => line,
    };
    proof {
        law_line_is_a_prefix(line@, 10);
    }
    line.finish()
}

/// Draw a percentage. A missing one is left blank.
pub fn percent(target: &mut Frame, value: &Option<Number>, x: i32, y: i32)
    requires
        near(x as int),
        near(y as int),
    ensures
        final(target)@ == put(
            old(target)@,
            gauge_text(*value, "%"@),
            x as int,
            y as int,
            Font::Small,
            true,
        ),
        *value is None ==> final(target)@ == old(target)@,
{
    let out = gauge(value, "%");
    proof {
        law_empty_text_covers_nothing(x as int, y as int, Font::Small);
    }
    text(target, out.as_str(), x, y, Font::Small, true);
}

/// Top of the node in place `i`.
pub open spec fn host_y(i: int) -> int {
    HOSTS_Y + (i + 1) * HOST_ROW_H
}

/// One node: its name and its gauges.
pub open spec fn host_on(c: Canvas, i: int, name: Seq<char>, node: Node) -> Canvas {
    let y = host_y(i);
    let c = put(c, name, PAD as int, y, Font::Small, true);
    let c = put(c, gauge_text(node.cpu, "%"@), 120, y, Font::Small, true);
    let c = put(c, gauge_text(node.mem, "%"@), 180, y, Font::Small, true);
    let c = put(c, gauge_text(node.disk, "%"@), 240, y, Font::Small, true);
    let c = put(c, gauge_text(node.load, ""@), 300, y, Font::Small, true);
    put(c, gauge_text(node.up_d, "d"@), 356, y, Font::Small, true)
}

/// The nodes in their places.
pub open spec fn host_rows_on(c: Canvas, nodes: Seq<Node>) -> Canvas
    decreases nodes.len(),
{
    if nodes.len() == 0 {
        c
    } else {
        host_on(
            host_rows_on(c, nodes.drop_last()),
            nodes.len() - 1,
            label_of(nodes.last().name),
            nodes.last(),
        )
    }
}

/// How many of `count` nodes there is room for above the footer.
pub open spec fn rooms(count: nat) -> nat {
    if count < 3 {
        count
    } else {
        3
    }
}

/// The table of nodes. Without Prometheus it says which half of the document is
/// missing instead of drawing zeros.
pub open spec fn hosts_on(c: Canvas, ok: bool, nodes: Seq<Node>) -> Canvas {
    let y = HOSTS_Y as int;
    if !ok {
        put(c, "host metrics unavailable (prometheus)"@, PAD as int, y, Font::Small, true)
    } else {
        let c = put(c, "HOST"@, PAD as int, y, Font::Small, true);
        let c = put(c, "CPU"@, 120, y, Font::Small, true);
        let c = put(c, "MEM"@, 180, y, Font::Small, true);
        let c = put(c, "DISK"@, 240, y, Font::Small, true);
        let c = put(c, "LOAD"@, 300, y, Font::Small, true);
        let c = put(c, "UP"@, 356, y, Font::Small, true);
        host_rows_on(c, nodes.take(rooms(nodes.len()) as int))
    }
}

/// Draw one node in place `i`, under the name `name`.
pub fn host(target: &mut Frame, i: usize, name: &str, node: &Node)
    requires
        i < 6,
        drawable(name@),
    ensures
        final(target)@ == host_on(old(target)@, i as int, name@, *node),
{
    let y: i32 = HOSTS_Y + (i as i32 + 1) * HOST_ROW_H;
    text(target, name, PAD, y, Font::Small, true);
    percent(target, &node.cpu, 120, y);
    percent(target, &node.mem, 180, y);
    percent(target, &node.disk, 240, y);
    let load = gauge(&node.load, "");
    text(target, load.as_str(), 300, y, Font::Small, true);
    let uptime = gauge(&node.up_d, "d");
    text(target, uptime.as_str(), 356, y, Font::Small, true);
}

/// Draw the column headings of the table of nodes.
fn host_headings(target: &mut Frame)
    ensures
        final(target)@ == hosts_on(old(target)@, true, Seq::empty()),
{
    proof {
        reveal_strlit("HOST");
        reveal_strlit("CPU");
        reveal_strlit("MEM");
        reveal_strlit("DISK");
        reveal_strlit("LOAD");
        reveal_strlit("UP");
        lemma_ascii_byte_len("HOST"@);
        lemma_ascii_byte_len("CPU"@);
        lemma_ascii_byte_len("MEM"@);
        lemma_ascii_byte_len("DISK"@);
        lemma_ascii_byte_len("LOAD"@);
        lemma_ascii_byte_len("UP"@);
    }
    text(target, "HOST", PAD, HOSTS_Y, Font::Small, true);
    text(target, "CPU", 120, HOSTS_Y, Font::Small, true);
    text(target, "MEM", 180, HOSTS_Y, Font::Small, true);
    text(target, "DISK", 240, HOSTS_Y, Font::Small, true);
    text(target, "LOAD", 300, HOSTS_Y, Font::Small, true);
    text(target, "UP", 356, HOSTS_Y, Font::Small, true);
}

/// Draw the table of nodes. Nodes that would run into the footer are left out.
pub fn hosts(target: &mut Frame, status: &Status)
    ensures
        final(target)@ == hosts_on(
            old(target)@,
            status.hosts.ok,
            nodes_of(status.hosts.nodes),
        ),
{
    if !status.hosts.ok {
        proof {
            reveal_strlit("host metrics unavailable (prometheus)");
            lemma_ascii_byte_len("host metrics unavailable (prometheus)"@);
        }
        text(
            target,
            "host metrics unavailable (prometheus)",
            PAD,
            HOSTS_Y,
            Font::Small,
            true,
        );
        return;
    }
    host_headings(target);

    let nodes = nodes_slice(&status.hosts.nodes);
    let ghost headed = target@;
    let mut i: usize = 0;
    assert(nodes@.take(0) =~= Seq::<Node>::empty());
    while i < nodes.len() && HOSTS_Y + (i as i32 + 1) * HOST_ROW_H + HOST_ROW_H <= FOOTER_Y
        invariant
            i <= rooms(nodes@.len()),
            nodes@.len() <= 6,
            target@ == host_rows_on(headed, nodes@.take(i as int)),
        decreases nodes@.len() - i,
    {
        let node = &nodes[i];
        host(target, i, label_str(&node.name), node);
        i += 1;
        assert(nodes@.take(i as int).drop_last() =~= nodes@.take(i - 1));
    }
}

/// How many monitors the headline leaves out.
pub open spec fn pending_text(unsettled: u16) -> Seq<char> {
    decimal(unsettled as nat) + " pending/maint"@
}

/// When the document was made.
pub open spec fn updated_text(stamp: Seq<char>) -> Seq<char> {
    "updated "@ + stamp
}

/// The footer. Monitors that the headline leaves out are reported here. The
/// stamp is a wall-clock time that the board only echoes, so a frozen screen
/// simply stops agreeing with the clock on the wall.
pub open spec fn footer_on(c: Canvas, unsettled: u16, stamp: Seq<char>) -> Canvas {
    let c = rule(c, FOOTER_Y - 3);
    let c = if unsettled > 0 {
        put(c, pending_text(unsettled), PAD as int, FOOTER_Y as int, Font::Small, true)
    } else {
        c
    };
    put_right(c, updated_text(stamp), W - PAD, FOOTER_Y as int, Font::Small, true)
}

/// Draw the footer from the two values it shows.
pub fn footer_line(target: &mut Frame, unsettled: u16, stamp: &str)
    requires
        byte_len(stamp@) <= 24,
    ensures
        final(target)@ == footer_on(old(target)@, unsettled, stamp@),
{
    hline(target, FOOTER_Y - 3);
    if unsettled > 0 {
        let number = to_decimal(unsettled as u32);
        let pending: Line<24> = Line::new().put(number.as_str()).put(" pending/maint");
        proof {
            reveal_strlit(" pending/maint");
            lemma_ascii_byte_len(" pending/maint"@);
            lemma_short_number(unsettled as nat);
            lemma_two_pieces(number@, " pending/maint"@, 24);
            assert(pending@ =~= seq![number@, " pending/maint"@]);
            law_line_is_a_prefix(pending@, 24);
        }
        let pending = pending.finish();
        text(target, pending.as_str(), PAD, FOOTER_Y, Font::Small, true);
    }
    let updated: Line<32> = Line::new().put("updated ").put(stamp);
    proof {
        reveal_strlit("updated ");
        lemma_ascii_byte_len("updated "@);
        lemma_two_pieces("updated "@, stamp@, 32);
        assert(updated@ =~= seq!["updated "@, stamp@]);
        law_line_is_a_prefix(updated@, 32);
    }
    let updated = updated.finish();
    text_right(target, updated.as_str(), W - PAD, FOOTER_Y, Font::Small, true);
}

/// Draw the footer.
pub fn footer(target: &mut Frame, status: &Status)
    ensures
        final(target)@ == footer_on(
            old(target)@,
            status.kuma.unsettled,
            stamp_of(status.generated_at),
        ),
{
    footer_line(target, status.kuma.unsettled, stamp_str(&status.generated_at));
}

/// The whole screen, top-down. What was on it before does not matter.
pub open spec fn screen(status: Status, room: Option<Room>) -> Canvas {
    let c = header_on(Set::empty(), alarm_of(status), summary_text(status.kuma), room);
    let c = groups_on(c, groups_of(status.kuma.groups));
    let c = issues_on(c, status.kuma.ok, down_of(status.kuma.down), status.kuma.down_more);
    let c = hosts_on(c, status.hosts.ok, nodes_of(status.hosts.nodes));
    footer_on(c, status.kuma.unsettled, stamp_of(status.generated_at))
}

/// Whether the number of down monitors, trimmed ones included, can be counted.
pub open spec fn countable(status: Status) -> bool {
    status.kuma.ok ==> down_of(status.kuma.down).len() + status.kuma.down_more <= u16::MAX
}

/// Draw the whole screen. Callers flush afterwards.
pub fn draw(target: &mut Frame, status: &Status, room: &Option<Room>)
    requires
        countable(*status),
    ensures
        final(target)@ == screen(*status, *room),
{
    target.clear(BinaryColor::Off);

    header(target, status, room);
    groups(target, status);
    issues(target, status);
    hosts(target, status);
    footer(target, status);
}

/// Draw the whole screen if its numbers can be counted, and otherwise leave it
/// as it is.
pub fn try_draw(target: &mut Frame, status: &Status, room: &Option<Room>) -> (drawn: bool)
    ensures
        drawn == countable(*status),
        drawn ==> final(target)@ == screen(*status, *room),
        !drawn ==> *final(target) == *old(target),
{
    if status.kuma.ok && status.kuma.down_total().is_none() {
        return false;
    }
    draw(target, status, room);
    true
}

/// A standalone message.
pub open spec fn message_screen(title: Seq<char>, detail: Seq<char>) -> Canvas {
    let c = put(Set::empty(), title, PAD as int, H / 2 - 30, Font::Big, true);
    put(c, detail, PAD as int, H / 2, Font::Small, true)
}

/// A standalone message, used before the first successful fetch and after a
/// fetch failure. Callers flush afterwards.
pub fn message(target: &mut Frame, title: &str, detail: &str)
    requires
        drawable(title@),
        drawable(detail@),
    ensures
        final(target)@ == message_screen(title@, detail@),
{
    target.clear(BinaryColor::Off);
    text(target, title, PAD, H / 2 - 30, Font::Big, true);
    text(target, detail, PAD, H / 2, Font::Small, true);
}

/// Every row stays inside its own section and on the screen, whatever the
/// document holds: groups above the rule under them, down monitors above the
/// rule under them, and nodes above the footer.
pub proof fn law_rows_stay_in_their_sections(i: int)
    requires
        0 <= i,
    ensures
        i < 10 ==> GROUPS_Y <= group_y(i) && group_y(i) + 15 <= GROUPS_END,
        i < 10 ==> PAD <= group_x(i) && group_x(i) + COLUMN_W <= W - PAD,
        i < 6 ==> ISSUES_Y < issue_y(i) && issue_y(i) + ISSUE_ROW_H <= ISSUES_END,
        i < 3 <==> host_y(i) + HOST_ROW_H <= FOOTER_Y,
        i < 3 ==> HOSTS_Y < host_y(i),
{
}

/// No two groups share a place.
pub proof fn law_groups_have_their_own_places(i: int, j: int)
    requires
        0 <= i < j < 10,
    ensures
        group_x(i) != group_x(j) || group_y(i) + GROUP_ROW_H <= group_y(j),
{
}

/// The pixels of the texts in a header.
pub open spec fn header_texts(alarm: bool, summary: Seq<char>, room: Option<Room>) -> Canvas {
    let title = if alarm {
        "STALE"@
    } else {
        "HOMELAB"@
    };
    let texts = text_shape(title, PAD as int, 5, Font::Big).union(
        text_shape(summary, W / 2 - 40, 5, Font::Big),
    );
    match room {
        Some(room) => texts.union(
            text_shape(
                room_text(room),
                right_aligned(W - PAD, room_text(room), Font::Small),
                9,
                Font::Small,
            ),
        ),
        None => texts,
    }
}

/// A stale document inverts the header outright: its bar is inked but for the
/// texts, where the header of a fresh document inks the texts alone.
pub proof fn law_stale_inverts_header(c: Canvas, summary: Seq<char>, room: Option<Room>)
    ensures
        forall|p: (int, int)|
            rect_shape(0, 0, W as int, HEADER_H as int).contains(p) ==> (header_on(
                c,
                true,
                summary,
                room,
            ).contains(p) <==> !header_texts(true, summary, room).contains(p)),
        forall|p: (int, int)|
            rect_shape(0, 0, W as int, HEADER_H as int).contains(p) ==> (header_on(
                Set::empty(),
                false,
                summary,
                room,
            ).contains(p) <==> header_texts(false, summary, room).contains(p)),
{
}

/// A full group's bar is solid.
pub proof fn law_full_bar_is_solid(x: int, y: int, total: int)
    requires
        0 < total,
    ensures
        rect_shape(x, y, BAR_W as int, 4).subset_of(
            rect_shape(x, y, bar_fill(total, total), 4),
        ),
{
    assert((BAR_W * total) / total == BAR_W) by (nonlinear_arith)
        requires
            0 < total,
    ;
}

/// A degraded group's bar shows a gap, unless no more than one monitor in 150
/// is down: the gap would then be a single column, which the bar's own border
/// covers.
pub proof fn law_degraded_bar_has_a_gap(i: int, up: int, total: int)
    requires
        0 <= i < 10,
        0 <= up < total,
        BAR_W * up < (BAR_W - 1) * total,
    ensures
        ({
            let (x, y) = (group_x(i), group_y(i) + 11);
            let gap = (x + BAR_W - 2, y + 1);
            &&& rect_shape(x, y, BAR_W as int, 4).contains(gap)
            &&& !border_shape(x, y, BAR_W as int, 4, 1).contains(gap)
            &&& !rect_shape(x, y, bar_fill(up, total), 4).contains(gap)
        }),
{
    let a = BAR_W * up;
    let b = BAR_W - 1;
    assert(a / total < b) by (nonlinear_arith)
        requires
            0 < total,
            0 <= a,
            a < b * total,
    ;
    law_rows_stay_in_their_sections(i);
}

/// The more monitors of a group are up, the further its bar is filled.
pub proof fn law_bar_grows_with_uptime(less: int, more: int, total: int)
    requires
        0 <= less <= more,
        0 < total,
    ensures
        bar_fill(less, total) <= bar_fill(more, total),
{
    vstd::arithmetic::div_mod::lemma_div_is_ordered(BAR_W * less, BAR_W * more, total);
}

/// A missing gauge is drawn blank, and never as a gauge that is there.
pub proof fn law_missing_gauge_is_blank(c: Canvas, unit: Seq<char>, x: int, y: int, value: Number)
    requires
        value@.len() > 0,
        value@[0].len() > 0,
        byte_len(value@[0]) <= 10,
    ensures
        put(c, gauge_text(None, unit), x, y, Font::Small, true) == c,
        gauge_text(None, unit) != gauge_text(Some(value), unit),
{
    law_empty_text_covers_nothing(x, y, Font::Small);
    assert(put(c, gauge_text(None, unit), x, y, Font::Small, true) =~= c);
    assert(value@.push(unit)[0] == value@[0]);
    lemma_first_piece_stays(value@.push(unit), 10);
}

/// Rows of down monitors only add ink, and each of them is there.
proof fn lemma_issue_rows(c: Canvas, down: Seq<Down>, i: int)
    requires
        0 <= i < down.len(),
    ensures
        text_shape(name_of(down[i].name), PAD + 6, issue_y(i), Font::Small).subset_of(
            issue_rows_on(c, down),
        ),
        text_shape(
            elapsed_text(down[i].secs),
            right_aligned(W - PAD, elapsed_text(down[i].secs), Font::Small),
            issue_y(i),
            Font::Small,
        ).subset_of(issue_rows_on(c, down)),
    decreases down.len(),
{
    if i < down.len() - 1 {
        lemma_issue_rows(c, down.drop_last(), i);
        assert(down.drop_last()[i] == down[i]);
    }
}

/// The table of nodes only adds ink.
proof fn lemma_hosts_add_ink(c: Canvas, ok: bool, nodes: Seq<Node>)
    ensures
        c.subset_of(hosts_on(c, ok, nodes)),
{
    if ok {
        let y = HOSTS_Y as int;
        let headed = put(c, "HOST"@, PAD as int, y, Font::Small, true);
        let headed = put(headed, "CPU"@, 120, y, Font::Small, true);
        let headed = put(headed, "MEM"@, 180, y, Font::Small, true);
        let headed = put(headed, "DISK"@, 240, y, Font::Small, true);
        let headed = put(headed, "LOAD"@, 300, y, Font::Small, true);
        let headed = put(headed, "UP"@, 356, y, Font::Small, true);
        lemma_host_rows_add_ink(headed, nodes.take(rooms(nodes.len()) as int));
    }
}

proof fn lemma_host_rows_add_ink(c: Canvas, nodes: Seq<Node>)
    ensures
        c.subset_of(host_rows_on(c, nodes)),
    decreases nodes.len(),
{
    if nodes.len() > 0 {
        lemma_host_rows_add_ink(c, nodes.drop_last());
    }
}

/// The display keeps naming what is down: as long as Uptime Kuma answers, every
/// down monitor of the document is on the screen with its name and for how long,
/// whatever became of the host metrics.
pub proof fn law_down_monitors_are_named(status: Status, room: Option<Room>, i: int)
    requires
        status.kuma.ok,
        0 <= i < down_of(status.kuma.down).len(),
    ensures
        ({
            let down = down_of(status.kuma.down)[i];
            let elapsed = elapsed_text(down.secs);
            &&& text_shape(name_of(down.name), PAD + 6, issue_y(i), Font::Small).subset_of(
                screen(status, room),
            )
            &&& text_shape(
                elapsed,
                right_aligned(W - PAD, elapsed, Font::Small),
                issue_y(i),
                Font::Small,
            ).subset_of(screen(status, room))
        }),
{
    let down = down_of(status.kuma.down);
    let c = header_on(Set::empty(), alarm_of(status), summary_text(status.kuma), room);
    let c = groups_on(c, groups_of(status.kuma.groups));
    let titled = put(
        c,
        down_text(down.len() + status.kuma.down_more as nat),
        PAD as int,
        ISSUES_Y as int,
        Font::Bold,
        true,
    );
    lemma_issue_rows(titled, down, i);
    let listed = issues_on(c, status.kuma.ok, down, status.kuma.down_more);
    assert(issue_rows_on(titled, down).subset_of(listed));
    lemma_hosts_add_ink(listed, status.hosts.ok, nodes_of(status.hosts.nodes));
}

/// Monitors that the headline leaves out are always counted in the footer, so its
/// denominator never shrinks quietly.
pub proof fn law_unsettled_monitors_are_counted(status: Status, room: Option<Room>)
    requires
        status.kuma.unsettled > 0,
    ensures
        text_shape(
            pending_text(status.kuma.unsettled),
            PAD as int,
            FOOTER_Y as int,
            Font::Small,
        ).subset_of(screen(status, room)),
{
}

/// The stamp of the document is always on the screen.
pub proof fn law_stamp_is_shown(status: Status, room: Option<Room>)
    ensures
        ({
            let updated = updated_text(stamp_of(status.generated_at));
            text_shape(
                updated,
                right_aligned(W - PAD, updated, Font::Small),
                FOOTER_Y as int,
                Font::Small,
            ).subset_of(screen(status, room))
        }),
{
}

/// Without host metrics the screen says which half of the document is missing.
pub proof fn law_missing_half_is_named(status: Status, room: Option<Room>)
    requires
        !status.hosts.ok,
    ensures
        text_shape(
            "host metrics unavailable (prometheus)"@,
            PAD as int,
            HOSTS_Y as int,
            Font::Small,
        ).subset_of(screen(status, room)),
{
}

/// Rows that the table of nodes can reach: from its heading to its last row.
pub open spec fn in_host_rows(y: int) -> bool {
    HOSTS_Y <= y < HOSTS_Y + 3 * HOST_ROW_H + 10
}

/// Whether every text of a node is a single line.
pub open spec fn single_lined(node: Node) -> bool {
    &&& !label_of(node.name).contains('\n')
    &&& plain(node.cpu)
    &&& plain(node.mem)
    &&& plain(node.disk)
    &&& plain(node.load)
    &&& plain(node.up_d)
}

/// Whether a gauge, if there is one, has no line break in it.
pub open spec fn plain(value: Option<Number>) -> bool {
    value matches Some(value) ==> !joined(value@).contains('\n')
}

/// A gauge without line breaks is a single line.
proof fn lemma_plain_gauge(value: Option<Number>, unit: Seq<char>)
    requires
        plain(value),
        !unit.contains('\n'),
    ensures
        !gauge_text(value, unit).contains('\n'),
{
    if let Some(value) = value {
        let pieces = value@.push(unit);
        let text = gauge_text(Some(value), unit);
        law_line_is_a_prefix(pieces, 10);
        assert(pieces.drop_last() =~= value@);
        let all = joined(value@) + unit;
        assert(joined(pieces) == all);
        if text.contains('\n') {
            let k = choose|k: int| 0 <= k < text.len() && text[k] == '\n';
            assert(all.subrange(0, text.len() as int)[k] == all[k]);
            if k < joined(value@).len() {
                assert(joined(value@)[k] == '\n');
            } else {
                assert(unit[k - joined(value@).len()] == '\n');
            }
        }
    }
}

/// A single line of small text does not touch pixels outside its ten rows.
proof fn lemma_put_stays_in_rows(c: Canvas, s: Seq<char>, x: int, y: int, p: (int, int))
    requires
        !s.contains('\n'),
        !(y <= p.1 < y + 10),
    ensures
        put(c, s, x, y, Font::Small, true).contains(p) == c.contains(p),
{
    assert(!cells(s, x, y, Font::Small).contains(p));
}

/// A row of the table of nodes stays in its rows of pixels.
proof fn lemma_host_stays_in_rows(c: Canvas, i: int, name: Seq<char>, node: Node, p: (int, int))
    requires
        0 <= i < 3,
        !name.contains('\n'),
        single_lined(node),
        !in_host_rows(p.1),
    ensures
        host_on(c, i, name, node).contains(p) == c.contains(p),
{
    reveal_strlit("%");
    reveal_strlit("");
    reveal_strlit("d");
    let y = host_y(i);
    lemma_plain_gauge(node.cpu, "%"@);
    lemma_plain_gauge(node.mem, "%"@);
    lemma_plain_gauge(node.disk, "%"@);
    lemma_plain_gauge(node.load, ""@);
    lemma_plain_gauge(node.up_d, "d"@);
    let c0 = put(c, name, PAD as int, y, Font::Small, true);
    let c1 = put(c0, gauge_text(node.cpu, "%"@), 120, y, Font::Small, true);
    let c2 = put(c1, gauge_text(node.mem, "%"@), 180, y, Font::Small, true);
    let c3 = put(c2, gauge_text(node.disk, "%"@), 240, y, Font::Small, true);
    let c4 = put(c3, gauge_text(node.load, ""@), 300, y, Font::Small, true);
    lemma_put_stays_in_rows(c, name, PAD as int, y, p);
    lemma_put_stays_in_rows(c0, gauge_text(node.cpu, "%"@), 120, y, p);
    lemma_put_stays_in_rows(c1, gauge_text(node.mem, "%"@), 180, y, p);
    lemma_put_stays_in_rows(c2, gauge_text(node.disk, "%"@), 240, y, p);
    lemma_put_stays_in_rows(c3, gauge_text(node.load, ""@), 300, y, p);
    lemma_put_stays_in_rows(c4, gauge_text(node.up_d, "d"@), 356, y, p);
}

proof fn lemma_host_rows_stay(c: Canvas, nodes: Seq<Node>, p: (int, int))
    requires
        nodes.len() <= 3,
        forall|i: int| 0 <= i < nodes.len() ==> single_lined(#[trigger] nodes[i]),
        !in_host_rows(p.1),
    ensures
        host_rows_on(c, nodes).contains(p) == c.contains(p),
    decreases nodes.len(),
{
    if nodes.len() > 0 {
        let before = nodes.drop_last();
        assert forall|i: int| 0 <= i < before.len() implies single_lined(#[trigger] before[i]) by {
            assert(before[i] == nodes[i]);
        }
        lemma_host_rows_stay(c, before, p);
        assert(single_lined(nodes[nodes.len() - 1]));
        lemma_host_stays_in_rows(
            host_rows_on(c, before),
            nodes.len() - 1,
            label_of(nodes.last().name),
            nodes.last(),
            p,
        );
    }
}

/// The table of nodes stays in its own rows of pixels, whatever it shows: with the
/// host metrics or without them, every other row is as it was.
pub proof fn law_hosts_stay_in_their_rows(c: Canvas, ok: bool, nodes: Seq<Node>, p: (int, int))
    requires
        forall|i: int| 0 <= i < nodes.len() ==> single_lined(#[trigger] nodes[i]),
        !in_host_rows(p.1),
    ensures
        hosts_on(c, ok, nodes).contains(p) == c.contains(p),
{
    reveal_strlit("host metrics unavailable (prometheus)");
    reveal_strlit("HOST");
    reveal_strlit("CPU");
    reveal_strlit("MEM");
    reveal_strlit("DISK");
    reveal_strlit("LOAD");
    reveal_strlit("UP");
    let y = HOSTS_Y as int;
    if !ok {
        lemma_put_stays_in_rows(
            c,
            "host metrics unavailable (prometheus)"@,
            PAD as int,
            y,
            p,
        );
    } else {
        let c0 = put(c, "HOST"@, PAD as int, y, Font::Small, true);
        let c1 = put(c0, "CPU"@, 120, y, Font::Small, true);
        let c2 = put(c1, "MEM"@, 180, y, Font::Small, true);
        let c3 = put(c2, "DISK"@, 240, y, Font::Small, true);
        let c4 = put(c3, "LOAD"@, 300, y, Font::Small, true);
        let c5 = put(c4, "UP"@, 356, y, Font::Small, true);
        lemma_put_stays_in_rows(c, "HOST"@, PAD as int, y, p);
        lemma_put_stays_in_rows(c0, "CPU"@, 120, y, p);
        lemma_put_stays_in_rows(c1, "MEM"@, 180, y, p);
        lemma_put_stays_in_rows(c2, "DISK"@, 240, y, p);
        lemma_put_stays_in_rows(c3, "LOAD"@, 300, y, p);
        lemma_put_stays_in_rows(c4, "UP"@, 356, y, p);
        let shown = nodes.take(rooms(nodes.len()) as int);
        assert forall|i: int| 0 <= i < shown.len() implies single_lined(#[trigger] shown[i]) by {
            assert(shown[i] == nodes[i]);
        }
        lemma_host_rows_stay(c5, shown, p);
    }
}

/// Losing the host metrics leaves the rest of the screen alone: two documents that
/// differ in their host metrics only are drawn the same, pixel for pixel, outside
/// the rows of the table of nodes.
pub proof fn law_losing_host_metrics_leaves_the_rest(a: Status, b: Status, room: Option<Room>)
    requires
        (Status { hosts: b.hosts, ..a }) == b,
        forall|i: int|
            0 <= i < nodes_of(a.hosts.nodes).len() ==> single_lined(
                #[trigger] nodes_of(a.hosts.nodes)[i],
            ),
        forall|i: int|
            0 <= i < nodes_of(b.hosts.nodes).len() ==> single_lined(
                #[trigger] nodes_of(b.hosts.nodes)[i],
            ),
    ensures
        forall|p: (int, int)|
            !in_host_rows(p.1) ==> (#[trigger] screen(a, room).contains(p) <==> screen(
                b,
                room,
            ).contains(p)),
{
    let c = header_on(Set::empty(), alarm_of(a), summary_text(a.kuma), room);
    let c = groups_on(c, groups_of(a.kuma.groups));
    let c = issues_on(c, a.kuma.ok, down_of(a.kuma.down), a.kuma.down_more);
    let ca = hosts_on(c, a.hosts.ok, nodes_of(a.hosts.nodes));
    let cb = hosts_on(c, b.hosts.ok, nodes_of(b.hosts.nodes));
    let (unsettled, stamp) = (a.kuma.unsettled, stamp_of(a.generated_at));
    assert forall|p: (int, int)| !in_host_rows(p.1) implies (#[trigger] screen(a, room).contains(p)
        <==> screen(b, room).contains(p)) by {
        law_hosts_stay_in_their_rows(c, a.hosts.ok, nodes_of(a.hosts.nodes), p);
        law_hosts_stay_in_their_rows(c, b.hosts.ok, nodes_of(b.hosts.nodes), p);
        assert(screen(a, room) == footer_on(ca, unsettled, stamp));
        assert(screen(b, room) == footer_on(cb, unsettled, stamp));
    }
}

} // verus!
