//! What the screen shows, pixel by pixel and character by character, in the
//! document's own terms.

use vstd::prelude::*;

verus! {

use crate::frame::paint;
use crate::model::{
    down_of,
    groups_of,
    label_of,
    name_of,
    nodes_of,
    stamp_of,
    Down,
    Group,
    Kuma,
    Node,
    Status,
};
use crate::raster::{
    border_shape,
    law_thin_border_pixels,
    rect_shape,
    right_aligned,
    text_shape,
    Font,
};
use crate::render::{
    alarm_of,
    countable,
    down_text,
    duration_text,
    elapsed_text,
    footer_on,
    gauge_text,
    group_on,
    group_rows_on,
    group_x,
    group_y,
    groups_on,
    header_on,
    host_on,
    host_rows_on,
    hosts_on,
    issue_on,
    issue_rows_on,
    issues_on,
    message_screen,
    more_text,
    pending_text,
    ratio_text,
    room_text,
    rooms,
    rule,
    screen,
    summary_text,
    updated_text,
    Canvas,
    Room,
};
use crate::text::{
    byte_len,
    decimal,
    digit,
    joined,
    law_decimal_is_plain,
    law_line_holds_what_fits,
    law_line_is_a_prefix,
    law_line_stops_at_the_first_overflow,
    lemma_byte_len_concat,
    lemma_joined_concat,
    number_of,
    Number,
};

/// Two numbers with a slash between them can be read off: the slash is there, and
/// wherever it is found, what stands before it is the first number and what follows,
/// up to the tail, the second.
proof fn lemma_slash_between(a: nat, b: nat, tail: Seq<char>)
    requires
        !tail.contains('/'),
    ensures
        ({
            let text = decimal(a) + seq!['/'] + decimal(b) + tail;
            let end = text.len() - tail.len();
            &&& text.contains('/')
            &&& text.skip(end) == tail
            &&& forall|i: int|
                0 <= i < text.len() && #[trigger] text[i] == '/' ==> i < end && number_of(
                    text.take(i),
                ) == a && number_of(text.subrange(i + 1, end)) == b
        }),
{
    let text = decimal(a) + seq!['/'] + decimal(b) + tail;
    let end = text.len() - tail.len();
    let k = decimal(a).len() as int;
    law_decimal_is_plain(a);
    law_decimal_is_plain(b);
    assert(text[k] == '/');
    assert(text.skip(end) =~= tail);
    assert(text.take(k) =~= decimal(a));
    assert(text.subrange(k + 1, end) =~= decimal(b));
    assert forall|i: int| 0 <= i < text.len() && #[trigger] text[i] == '/' implies i == k by {
        if i < k {
            assert(text[i] == decimal(a)[i]);
        } else if k < i < end {
            assert(text[i] == decimal(b)[i - k - 1]);
        } else if i >= end {
            assert(text[i] == tail[i - end]);
        }
    }
}

/// The headline counts what the document counts: the number before its slash is
/// `up`, the number after it `total`, and nothing but " UP" follows.
pub proof fn law_headline_reads_back(kuma: Kuma)
    requires
        kuma.ok,
    ensures
        ({
            let text = summary_text(kuma);
            let end = text.len() - 3;
            &&& text.contains('/')
            &&& text.skip(end) == seq![' ', 'U', 'P']
            &&& forall|i: int|
                0 <= i < text.len() && #[trigger] text[i] == '/' ==> i < end && number_of(
                    text.take(i),
                ) == kuma.up && number_of(text.subrange(i + 1, end)) == kuma.total
        }),
        summary_text(kuma) == decimal(kuma.up as nat) + seq!['/'] + decimal(kuma.total as nat)
            + seq![' ', 'U', 'P'],
{
    reveal_strlit("/");
    reveal_strlit(" UP");
    assert("/"@ =~= seq!['/']);
    assert(" UP"@ =~= seq![' ', 'U', 'P']);
    lemma_slash_between(kuma.up as nat, kuma.total as nat, seq![' ', 'U', 'P']);
}

/// The headline depends on the two counts alone, whatever else the documents hold:
/// the down monitors, the trimmed ones, the unsettled ones or the groups.
pub proof fn law_headline_depends_on_the_counts_alone(a: Kuma, b: Kuma)
    ensures
        a.ok && b.ok && a.up == b.up && a.total == b.total ==> summary_text(a) == summary_text(b),
        !a.ok && !b.ok ==> summary_text(a) == summary_text(b),
        a.ok != b.ok ==> summary_text(a) != summary_text(b),
{
    law_unreachable_headline(a);
    law_unreachable_headline(b);
    if a.ok {
        law_headline_reads_back(a);
    }
    if b.ok {
        law_headline_reads_back(b);
    }
}

/// Without Uptime Kuma the headline says so, and shows no count.
pub proof fn law_unreachable_headline(kuma: Kuma)
    ensures
        !kuma.ok ==> summary_text(kuma) == seq!['K', 'U', 'M', 'A', ' ', 'E', 'R', 'R'],
        !kuma.ok ==> !summary_text(kuma).contains('/'),
{
    reveal_strlit("KUMA ERR");
    if !kuma.ok {
        assert(summary_text(kuma) =~= seq!['K', 'U', 'M', 'A', ' ', 'E', 'R', 'R']);
    }
}

/// Different counts have different headlines.
pub proof fn law_headlines_are_told_apart(a: Kuma, b: Kuma)
    requires
        a.ok,
        b.ok,
        summary_text(a) == summary_text(b),
    ensures
        a.up == b.up,
        a.total == b.total,
{
    law_headline_reads_back(a);
    law_headline_reads_back(b);
    let text = summary_text(a);
    let i = choose|i: int| 0 <= i < text.len() && text[i] == '/';
    assert(text[i] == '/');
}

/// The count of a group is its two numbers with a slash between them.
pub proof fn law_ratio_reads_back(up: u16, total: u16)
    ensures
        ({
            let text = ratio_text(up, total);
            &&& text.contains('/')
            &&& forall|i: int|
                0 <= i < text.len() && #[trigger] text[i] == '/' ==> number_of(text.take(i)) == up
                    && number_of(text.skip(i + 1)) == total
        }),
        ratio_text(up, total) == decimal(up as nat) + seq!['/'] + decimal(total as nat),
{
    reveal_strlit("/");
    assert("/"@ =~= seq!['/']);
    let text = ratio_text(up, total);
    lemma_slash_between(up as nat, total as nat, Seq::empty());
    assert(text =~= decimal(up as nat) + seq!['/'] + decimal(total as nat) + Seq::<char>::empty());
    assert forall|i: int| 0 <= i < text.len() && #[trigger] text[i] == '/' implies number_of(
        text.take(i),
    ) == up && number_of(text.skip(i + 1)) == total by {
        assert(text.skip(i + 1) =~= text.subrange(i + 1, text.len() as int));
    }
}

/// A duration is shown in its two largest units at most: the whole days from a day
/// on, hours and minutes below that, then minutes, then seconds. What is smaller is
/// cut off, not rounded.
pub proof fn law_duration_units(days: nat, hours: nat, minutes: nat, seconds: nat)
    requires
        hours < 24,
        minutes < 60,
        seconds < 60,
    ensures
        ({
            let text = duration_text(86_400 * days + 3_600 * hours + 60 * minutes + seconds);
            &&& days > 0 ==> text == decimal(days) + seq!['d']
            &&& days == 0 && hours > 0 ==> text == decimal(hours) + seq![
                'h',
                digit(minutes / 10),
                digit(minutes % 10),
                'm',
            ]
            &&& days == 0 && hours == 0 && minutes > 0 ==> text == decimal(minutes) + seq!['m']
            &&& days == 0 && hours == 0 && minutes == 0 ==> text == decimal(seconds) + seq!['s']
        }),
{
    reveal_strlit("d");
    reveal_strlit("h");
    reveal_strlit("m");
    reveal_strlit("s");
    let secs = 86_400 * days + 3_600 * hours + 60 * minutes + seconds;
    let text = duration_text(secs);
    if days > 0 {
        assert(secs / 86_400 == days);
        assert("d"@ =~= seq!['d']);
    } else if hours > 0 {
        assert(secs / 3_600 == hours);
        assert((secs % 3_600) / 60 == minutes);
        reveal_with_fuel(decimal, 3);
        assert(text =~= decimal(hours) + seq![
            'h',
            digit(minutes / 10),
            digit(minutes % 10),
            'm',
        ]);
    } else if minutes > 0 {
        assert(secs / 60 == minutes);
        assert("m"@ =~= seq!['m']);
    } else {
        assert("s"@ =~= seq!['s']);
    }
}

/// How long a monitor has been down is a duration where it is known, and a question
/// mark, which no duration is, where it is not.
pub proof fn law_unknown_duration(secs: u32)
    ensures
        elapsed_text(None) == seq!['?'],
        elapsed_text(Some(secs)) == duration_text(secs as nat),
        elapsed_text(Some(secs)) != elapsed_text(None),
{
    reveal_strlit("?");
    reveal_strlit("d");
    reveal_strlit("m");
    reveal_strlit("s");
    assert("?"@ =~= seq!['?']);
    let text = duration_text(secs as nat);
    assert(text.last() == 'd' || text.last() == 'm' || text.last() == 's');
}

/// The texts that count something carry exactly that number.
pub proof fn law_counts_in_texts(count: nat, n: u16, stamp: Seq<char>)
    ensures
        down_text(count) == seq!['D', 'O', 'W', 'N', ' ', '('] + decimal(count) + seq![')'],
        more_text(n) == seq!['+'] + decimal(n as nat) + seq![' ', 'm', 'o', 'r', 'e'],
        pending_text(n) == decimal(n as nat) + seq![
            ' ',
            'p',
            'e',
            'n',
            'd',
            'i',
            'n',
            'g',
            '/',
            'm',
            'a',
            'i',
            'n',
            't',
        ],
        updated_text(stamp) == seq!['u', 'p', 'd', 'a', 't', 'e', 'd', ' '] + stamp,
{
    reveal_strlit("DOWN (");
    reveal_strlit(")");
    reveal_strlit("+");
    reveal_strlit(" more");
    reveal_strlit(" pending/maint");
    reveal_strlit("updated ");
    assert("DOWN ("@ =~= seq!['D', 'O', 'W', 'N', ' ', '(']);
    assert(")"@ =~= seq![')']);
    assert("+"@ =~= seq!['+']);
    assert(" more"@ =~= seq![' ', 'm', 'o', 'r', 'e']);
    assert(" pending/maint"@ =~= seq![
        ' ',
        'p',
        'e',
        'n',
        'd',
        'i',
        'n',
        'g',
        '/',
        'm',
        'a',
        'i',
        'n',
        't',
    ]);
    assert("updated "@ =~= seq!['u', 'p', 'd', 'a', 't', 'e', 'd', ' ']);
}

/// The room's reading is its temperature, `C`, a blank, its humidity and `%`, as far as
/// twenty bytes hold it.
pub proof fn law_room_reading(room: Room)
    ensures
        ({
            let whole = joined(room.temp_c@) + seq!['C', ' '] + joined(room.hum_pct@) + seq!['%'];
            &&& room_text(room).is_prefix_of(whole)
            &&& byte_len(room_text(room)) <= 20
            &&& byte_len(whole) <= 20 ==> room_text(room) == whole
        }),
{
    reveal_strlit("C ");
    reveal_strlit("%");
    assert("C "@ =~= seq!['C', ' ']);
    assert("%"@ =~= seq!['%']);
    let a = room.temp_c@ + seq!["C "@];
    let b = a + room.hum_pct@;
    let pieces = b + seq!["%"@];
    lemma_joined_concat(room.temp_c@, seq!["C "@]);
    lemma_joined_concat(a, room.hum_pct@);
    lemma_joined_concat(b, seq!["%"@]);
    lemma_join_one("C "@);
    lemma_join_one("%"@);
    law_line_is_a_prefix(pieces, 20);
    if byte_len(joined(pieces)) <= 20 {
        law_line_holds_what_fits(pieces, 20);
    }
}

proof fn lemma_join_one(piece: Seq<char>)
    ensures
        joined(seq![piece]) == piece,
{
    assert(seq![piece].drop_last() =~= Seq::<Seq<char>>::empty());
    assert(joined(Seq::<Seq<char>>::empty()) =~= Seq::<char>::empty());
    assert(joined(seq![piece]) =~= piece);
}

/// A reading of the room that does not fit is kept piece by piece from the front, up to
/// the first piece that does not fit.
pub proof fn law_long_room_reading(room: Room, kept: int)
    requires
        ({
            let pieces = room.temp_c@ + seq![seq!['C', ' ']] + room.hum_pct@ + seq![seq!['%']];
            &&& 0 <= kept < pieces.len()
            &&& byte_len(joined(pieces.take(kept))) <= 20
            &&& byte_len(joined(pieces.take(kept + 1))) > 20
        }),
    ensures
        room_text(room) == joined(
            (room.temp_c@ + seq![seq!['C', ' ']] + room.hum_pct@ + seq![seq!['%']]).take(kept),
        ),
{
    reveal_strlit("C ");
    reveal_strlit("%");
    assert("C "@ =~= seq!['C', ' ']);
    assert("%"@ =~= seq!['%']);
    let pieces = room.temp_c@ + seq![seq!['C', ' ']] + room.hum_pct@ + seq![seq!['%']];
    law_line_stops_at_the_first_overflow(pieces, 20, kept);
}

/// A gauge shows the node's own number and then its unit, as far as ten bytes hold it,
/// and a missing one shows nothing.
pub proof fn law_gauge_shows_the_number(value: Number, unit: Seq<char>)
    ensures
        gauge_text(None, unit) == Seq::<char>::empty(),
        gauge_text(Some(value), unit).is_prefix_of(joined(value@) + unit),
        byte_len(gauge_text(Some(value), unit)) <= 10,
        byte_len(joined(value@)) + byte_len(unit) <= 10 ==> gauge_text(Some(value), unit)
            == joined(value@) + unit,
{
    let pieces = value@.push(unit);
    assert(pieces.drop_last() =~= value@);
    lemma_byte_len_concat(joined(value@), unit);
    law_line_is_a_prefix(pieces, 10);
    if byte_len(joined(value@)) + byte_len(unit) <= 10 {
        law_line_holds_what_fits(pieces, 10);
    }
}

/// A gauge that does not fit is kept piece by piece from the front, up to the first piece
/// that does not fit.
pub proof fn law_long_gauge(value: Number, unit: Seq<char>, kept: int)
    requires
        0 <= kept <= value@.len(),
        byte_len(joined(value@.push(unit).take(kept))) <= 10,
        byte_len(joined(value@.push(unit).take(kept + 1))) > 10,
    ensures
        gauge_text(Some(value), unit) == joined(value@.take(kept)),
{
    law_line_stops_at_the_first_overflow(value@.push(unit), 10, kept);
    assert(value@.push(unit).take(kept) =~= value@.take(kept));
}

/// A rule is one pixel high and leaves four pixels free at the left edge and three at the
/// right.
pub proof fn law_rule_pixels(c: Canvas, y: int, p: (int, int))
    requires
        0 <= y < 300,
    ensures
        rule(c, y).contains(p) <==> c.contains(p) || (4 <= p.0 <= 396 && p.1 == y),
{
}

/// The header of a fresh document, pixel by pixel: the name of the screen, the headline,
/// the room where there is a reading, and a rule below.
pub proof fn law_fresh_header(c: Canvas, status: Status, room: Option<Room>, p: (int, int))
    requires
        !status.stale,
        status.ready,
    ensures
        header_on(c, alarm_of(status), summary_text(status.kuma), room).contains(p) <==> {
            ||| c.contains(p)
            ||| text_shape("HOMELAB"@, 4, 5, Font::Big).contains(p)
            ||| text_shape(summary_text(status.kuma), 160, 5, Font::Big).contains(p)
            ||| room is Some && text_shape(
                room_text(room->0),
                396 - 6 * room_text(room->0).len(),
                9,
                Font::Small,
            ).contains(p)
            ||| 4 <= p.0 <= 396 && p.1 == 30
        },
{
}

/// The header of a document that is stale, or was never filled, pixel by pixel: a bar over
/// the whole width with the texts left out of it.
pub proof fn law_stale_header(c: Canvas, status: Status, room: Option<Room>, p: (int, int))
    requires
        status.stale || !status.ready,
    ensures
        header_on(c, alarm_of(status), summary_text(status.kuma), room).contains(p) <==> {
            &&& c.contains(p) || (0 <= p.0 < 400 && 0 <= p.1 < 30)
            &&& !text_shape("STALE"@, 4, 5, Font::Big).contains(p)
            &&& !text_shape(summary_text(status.kuma), 160, 5, Font::Big).contains(p)
            &&& room is Some ==> !text_shape(
                room_text(room->0),
                396 - 6 * room_text(room->0).len(),
                9,
                Font::Small,
            ).contains(p)
        },
{
}

/// One group, pixel by pixel. Five groups stand below each other in either column. Column
/// `k` of the bar is filled if that share of the monitors is up.
pub proof fn law_group_pixels(
    c: Canvas,
    column: int,
    row: int,
    label: Seq<char>,
    up: u16,
    total: u16,
    p: (int, int),
)
    requires
        0 <= column < 2,
        0 <= row < 5,
    ensures
        ({
            let (x, y) = (4 + 196 * column, 36 + 18 * row);
            let in_bar = 0 <= p.0 < 400 && x <= p.0 && y + 11 <= p.1 < y + 15;
            group_on(c, 5 * column + row, label, up, total).contains(p) <==> {
                ||| c.contains(p)
                ||| text_shape(label, x, y, Font::Small).contains(p)
                ||| text_shape(
                    ratio_text(up, total),
                    x + 188 - 6 * ratio_text(up, total).len(),
                    y,
                    Font::Small,
                ).contains(p)
                ||| in_bar && p.0 < x + 150 && (p.0 == x || p.0 == x + 149 || p.1 == y + 11 || p.1
                    == y + 14)
                ||| in_bar && total > 0 && (p.0 - x + 1) * total <= 150 * up
            }
        }),
{
    let i = 5 * column + row;
    let (x, y) = (4 + 196 * column, 36 + 18 * row);
    assert(i / 5 == column && i % 5 == row);
    assert(group_x(i) == x && group_y(i) == y);
    let (a, k, t) = (150 * up as int, p.0 - x, total as int);
    let count = ratio_text(up, total);
    let c1 = paint(c, text_shape(label, x, y, Font::Small), true);
    let c2 = paint(c1, text_shape(count, x + 188 - 6 * count.len(), y, Font::Small), true);
    let border = border_shape(x, y + 11, 150, 4, 1);
    let c3 = paint(c2, border, true);
    law_thin_border_pixels(x, y + 11, 150, 4, p);
    assert(right_aligned(x + 188, count, Font::Small) == x + 188 - 6 * count.len());
    if total > 0 {
        assert(k < a / t <==> (k + 1) * t <= a) by (nonlinear_arith)
            requires
                0 < t,
                0 <= a,
        ;
        let filled = rect_shape(x, y + 11, a / t, 4);
        assert(group_on(c, i, label, up, total) == paint(c3, filled, true));
    } else {
        assert(group_on(c, i, label, up, total) == c3);
    }
}

/// One group drawn alone.
pub open spec fn group_alone(groups: Seq<Group>, i: int) -> Canvas {
    group_on(Set::empty(), i, label_of(groups[i].label), groups[i].up, groups[i].total)
}

/// Every group of the document is drawn in its place, with its own label and counts, and
/// a rule below; what was there stays.
pub proof fn law_all_groups_are_drawn(c: Canvas, groups: Seq<Group>, p: (int, int))
    ensures
        groups_on(c, groups).contains(p) <==> {
            ||| c.contains(p)
            ||| exists|i: int| 0 <= i < groups.len() && #[trigger] group_alone(groups, i).contains(p)
            ||| 4 <= p.0 <= 396 && p.1 == 127
        },
{
    lemma_group_rows(c, groups, p);
}

proof fn lemma_group_rows(c: Canvas, groups: Seq<Group>, p: (int, int))
    ensures
        group_rows_on(c, groups).contains(p) <==> {
            ||| c.contains(p)
            ||| exists|i: int| 0 <= i < groups.len() && #[trigger] group_alone(groups, i).contains(p)
        },
    decreases groups.len(),
{
    if groups.len() > 0 {
        let most = groups.drop_last();
        let n = groups.len() - 1;
        lemma_group_rows(c, most, p);
        assert forall|i: int| 0 <= i < n implies #[trigger] group_alone(groups, i) == group_alone(
            most,
            i,
        ) by {
            assert(most[i] == groups[i]);
        }
        assert(group_rows_on(c, groups).contains(p) <==> group_rows_on(c, most).contains(p)
            || group_alone(groups, n).contains(p));
        if group_rows_on(c, most).contains(p) && !c.contains(p) {
            let i = choose|i: int| 0 <= i < most.len() && #[trigger] group_alone(most, i).contains(p);
            assert(group_alone(groups, i).contains(p));
        }
        if exists|i: int| 0 <= i < groups.len() && #[trigger] group_alone(groups, i).contains(p) {
            let i = choose|i: int|
                0 <= i < groups.len() && #[trigger] group_alone(groups, i).contains(p);
            if i < n {
                assert(group_alone(most, i).contains(p));
            }
        }
    }
}

/// One down monitor, pixel by pixel: its name, and at the right edge for how long.
pub proof fn law_issue_pixels(
    c: Canvas,
    i: int,
    name: Seq<char>,
    secs: Option<u32>,
    p: (int, int),
)
    ensures
        issue_on(c, i, name, secs).contains(p) <==> {
            ||| c.contains(p)
            ||| text_shape(name, 10, 146 + 13 * i, Font::Small).contains(p)
            ||| text_shape(
                elapsed_text(secs),
                396 - 6 * elapsed_text(secs).len(),
                146 + 13 * i,
                Font::Small,
            ).contains(p)
        },
{
}

/// One down monitor drawn alone.
pub open spec fn issue_alone(down: Seq<Down>, i: int) -> Canvas {
    issue_on(Set::empty(), i, name_of(down[i].name), down[i].secs)
}

proof fn lemma_issue_rows(c: Canvas, down: Seq<Down>, p: (int, int))
    ensures
        issue_rows_on(c, down).contains(p) <==> {
            ||| c.contains(p)
            ||| exists|i: int| 0 <= i < down.len() && #[trigger] issue_alone(down, i).contains(p)
        },
    decreases down.len(),
{
    if down.len() > 0 {
        let most = down.drop_last();
        let n = down.len() - 1;
        lemma_issue_rows(c, most, p);
        assert forall|i: int| 0 <= i < n implies #[trigger] issue_alone(down, i) == issue_alone(
            most,
            i,
        ) by {
            assert(most[i] == down[i]);
        }
        assert(issue_rows_on(c, down).contains(p) <==> issue_rows_on(c, most).contains(p)
            || issue_alone(down, n).contains(p));
        if issue_rows_on(c, most).contains(p) && !c.contains(p) {
            let i = choose|i: int| 0 <= i < most.len() && #[trigger] issue_alone(most, i).contains(p);
            assert(issue_alone(down, i).contains(p));
        }
        if exists|i: int| 0 <= i < down.len() && #[trigger] issue_alone(down, i).contains(p) {
            let i = choose|i: int|
                0 <= i < down.len() && #[trigger] issue_alone(down, i).contains(p);
            if i < n {
                assert(issue_alone(most, i).contains(p));
            }
        }
    }
}

/// The section of the down monitors, pixel by pixel. It says that Uptime Kuma cannot be
/// reached, that all is up, or how many monitors are down; then every one of them is
/// listed, and the trimmed ones are counted if there are any.
pub proof fn law_issues_pixels(c: Canvas, ok: bool, down: Seq<Down>, more: u16, p: (int, int))
    ensures
        ({
            let listed = ok && down.len() > 0;
            issues_on(c, ok, down, more).contains(p) <==> {
                ||| c.contains(p)
                ||| !ok && text_shape("uptime kuma unreachable"@, 4, 132, Font::Bold).contains(p)
                ||| ok && down.len() == 0 && text_shape(
                    "ALL SERVICES UP"@,
                    4,
                    132,
                    Font::WideBold,
                ).contains(p)
                ||| listed && text_shape(down_text(down.len() + more as nat), 4, 132, Font::Bold).contains(
                    p,
                )
                ||| listed && exists|i: int|
                    0 <= i < down.len() && #[trigger] issue_alone(down, i).contains(p)
                ||| listed && more > 0 && text_shape(
                    more_text(more),
                    396 - 6 * more_text(more).len(),
                    132,
                    Font::Small,
                ).contains(p)
                ||| 4 <= p.0 <= 396 && p.1 == 224
            }
        }),
{
    if ok && down.len() > 0 {
        let title = text_shape(down_text(down.len() + more as nat), 4, 132, Font::Bold);
        lemma_issue_rows(paint(c, title, true), down, p);
    }
}

/// One node, pixel by pixel: its name and its five gauges, each in its column.
pub proof fn law_host_pixels(c: Canvas, i: int, name: Seq<char>, node: Node, p: (int, int))
    ensures
        ({
            let y = 241 + 12 * i;
            host_on(c, i, name, node).contains(p) <==> {
                ||| c.contains(p)
                ||| text_shape(name, 4, y, Font::Small).contains(p)
                ||| text_shape(gauge_text(node.cpu, "%"@), 120, y, Font::Small).contains(p)
                ||| text_shape(gauge_text(node.mem, "%"@), 180, y, Font::Small).contains(p)
                ||| text_shape(gauge_text(node.disk, "%"@), 240, y, Font::Small).contains(p)
                ||| text_shape(gauge_text(node.load, ""@), 300, y, Font::Small).contains(p)
                ||| text_shape(gauge_text(node.up_d, "d"@), 356, y, Font::Small).contains(p)
            }
        }),
{
}

/// One node drawn alone.
pub open spec fn host_alone(nodes: Seq<Node>, i: int) -> Canvas {
    host_on(Set::empty(), i, label_of(nodes[i].name), nodes[i])
}

proof fn lemma_host_rows(c: Canvas, nodes: Seq<Node>, p: (int, int))
    ensures
        host_rows_on(c, nodes).contains(p) <==> {
            ||| c.contains(p)
            ||| exists|i: int| 0 <= i < nodes.len() && #[trigger] host_alone(nodes, i).contains(p)
        },
    decreases nodes.len(),
{
    if nodes.len() > 0 {
        let most = nodes.drop_last();
        let n = nodes.len() - 1;
        lemma_host_rows(c, most, p);
        assert forall|i: int| 0 <= i < n implies #[trigger] host_alone(nodes, i) == host_alone(
            most,
            i,
        ) by {
            assert(most[i] == nodes[i]);
        }
        law_host_pixels(host_rows_on(c, most), n, label_of(nodes[n].name), nodes[n], p);
        law_host_pixels(Set::empty(), n, label_of(nodes[n].name), nodes[n], p);
        assert(host_rows_on(c, nodes).contains(p) <==> host_rows_on(c, most).contains(p)
            || host_alone(nodes, n).contains(p));
        if host_rows_on(c, most).contains(p) && !c.contains(p) {
            let i = choose|i: int| 0 <= i < most.len() && #[trigger] host_alone(most, i).contains(p);
            assert(host_alone(nodes, i).contains(p));
        }
        if exists|i: int| 0 <= i < nodes.len() && #[trigger] host_alone(nodes, i).contains(p) {
            let i = choose|i: int|
                0 <= i < nodes.len() && #[trigger] host_alone(nodes, i).contains(p);
            if i < n {
                assert(host_alone(most, i).contains(p));
            }
        }
    }
}

/// The table of nodes, pixel by pixel: its headings and the first three nodes, or, without
/// Prometheus, which half of the document is missing.
pub proof fn law_hosts_pixels(c: Canvas, ok: bool, nodes: Seq<Node>, p: (int, int))
    ensures
        hosts_on(c, ok, nodes).contains(p) <==> {
            ||| c.contains(p)
            ||| !ok && text_shape(
                "host metrics unavailable (prometheus)"@,
                4,
                229,
                Font::Small,
            ).contains(p)
            ||| ok && text_shape("HOST"@, 4, 229, Font::Small).contains(p)
            ||| ok && text_shape("CPU"@, 120, 229, Font::Small).contains(p)
            ||| ok && text_shape("MEM"@, 180, 229, Font::Small).contains(p)
            ||| ok && text_shape("DISK"@, 240, 229, Font::Small).contains(p)
            ||| ok && text_shape("LOAD"@, 300, 229, Font::Small).contains(p)
            ||| ok && text_shape("UP"@, 356, 229, Font::Small).contains(p)
            ||| ok && exists|i: int|
                0 <= i < nodes.len() && i < 3 && #[trigger] host_alone(nodes, i).contains(p)
        },
{
    if ok {
        let shown = nodes.take(rooms(nodes.len()) as int);
        let headed = hosts_on(c, true, Seq::empty());
        assert(Seq::<Node>::empty().take(0) =~= Seq::<Node>::empty());
        lemma_host_rows(headed, shown, p);
        assert forall|i: int| 0 <= i < shown.len() implies #[trigger] host_alone(nodes, i)
            == host_alone(shown, i) by {
            assert(shown[i] == nodes[i]);
        }
        if exists|i: int| 0 <= i < shown.len() && #[trigger] host_alone(shown, i).contains(p) {
            let i = choose|i: int|
                0 <= i < shown.len() && #[trigger] host_alone(shown, i).contains(p);
            assert(host_alone(nodes, i).contains(p));
        }
        if exists|i: int|
            0 <= i < nodes.len() && i < 3 && #[trigger] host_alone(nodes, i).contains(p) {
            let i = choose|i: int|
                0 <= i < nodes.len() && i < 3 && #[trigger] host_alone(nodes, i).contains(p);
            assert(host_alone(shown, i).contains(p));
        }
    }
}

/// The footer, pixel by pixel: a rule, the unsettled monitors if there are any, and the
/// stamp at the right edge.
pub proof fn law_footer_pixels(c: Canvas, unsettled: u16, stamp: Seq<char>, p: (int, int))
    ensures
        footer_on(c, unsettled, stamp).contains(p) <==> {
            ||| c.contains(p)
            ||| 4 <= p.0 <= 396 && p.1 == 285
            ||| unsettled > 0 && text_shape(pending_text(unsettled), 4, 288, Font::Small).contains(p)
            ||| text_shape(
                updated_text(stamp),
                396 - 6 * updated_text(stamp).len(),
                288,
                Font::Small,
            ).contains(p)
        },
{
}

/// A message, pixel by pixel: its title and its detail, and nothing else.
pub proof fn law_message_pixels(title: Seq<char>, detail: Seq<char>, p: (int, int))
    ensures
        message_screen(title, detail).contains(p) <==> {
            ||| text_shape(title, 4, 120, Font::Big).contains(p)
            ||| text_shape(detail, 4, 150, Font::Small).contains(p)
        },
{
}

/// The screen shows its five sections and nothing else, each of them from its own part of
/// the document as if it were drawn alone.
pub proof fn law_screen_is_its_sections(status: Status, room: Option<Room>, p: (int, int))
    ensures
        screen(status, room).contains(p) <==> {
            ||| header_on(
                Set::empty(),
                status.stale || !status.ready,
                summary_text(status.kuma),
                room,
            ).contains(p)
            ||| groups_on(Set::empty(), groups_of(status.kuma.groups)).contains(p)
            ||| issues_on(
                Set::empty(),
                status.kuma.ok,
                down_of(status.kuma.down),
                status.kuma.down_more,
            ).contains(p)
            ||| hosts_on(Set::empty(), status.hosts.ok, nodes_of(status.hosts.nodes)).contains(p)
            ||| footer_on(
                Set::empty(),
                status.kuma.unsettled,
                stamp_of(status.generated_at),
            ).contains(p)
        },
{
    let (groups, down) = (groups_of(status.kuma.groups), down_of(status.kuma.down));
    let (more, nodes) = (status.kuma.down_more, nodes_of(status.hosts.nodes));
    let none = Set::<(int, int)>::empty();
    let c0 = header_on(none, alarm_of(status), summary_text(status.kuma), room);
    let c1 = groups_on(c0, groups);
    let c2 = issues_on(c1, status.kuma.ok, down, more);
    let c3 = hosts_on(c2, status.hosts.ok, nodes);
    law_all_groups_are_drawn(c0, groups, p);
    law_all_groups_are_drawn(none, groups, p);
    law_issues_pixels(c1, status.kuma.ok, down, more, p);
    law_issues_pixels(none, status.kuma.ok, down, more, p);
    law_hosts_pixels(c2, status.hosts.ok, nodes, p);
    law_hosts_pixels(none, status.hosts.ok, nodes, p);
    law_footer_pixels(c3, status.kuma.unsettled, stamp_of(status.generated_at), p);
    law_footer_pixels(none, status.kuma.unsettled, stamp_of(status.generated_at), p);
}

/// A document is refused for one reason only: Uptime Kuma answered, and the number of down
/// monitors, trimmed ones included, exceeds sixteen bits.
pub proof fn law_refused_documents(status: Status)
    ensures
        !countable(status) <==> status.kuma.ok && down_of(status.kuma.down).len()
            + status.kuma.down_more > 65_535,
{
}

} // verus!
