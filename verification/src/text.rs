//! Decimal numbers, and lines of text with a fixed capacity.
//!
//! A line is written piece by piece. A piece that does not fit whole is left
//! out, and so is everything after it: nothing is cut in the middle.

use vstd::prelude::*;
use vstd::string::StringExecFns;

verus! {

use vstd::utf8::{encode_utf8, is_ascii_chars, is_ascii_chars_encode_utf8};

/// Length of `text` in bytes.
pub open spec fn byte_len(text: Seq<char>) -> nat {
    encode_utf8(text).len()
}

/// The decimal digit for `d`.
pub open spec fn digit(d: nat) -> char {
    ('0' as u32 + d) as char
}

/// `n` in decimal, without leading zeros.
pub open spec fn decimal(n: nat) -> Seq<char>
    decreases n,
{
    if n < 10 {
        seq![digit(n)]
    } else {
        decimal(n / 10).push(digit(n % 10))
    }
}

/// `n` in decimal, padded with a zero to two digits.
pub open spec fn two_digits(n: nat) -> Seq<char> {
    if n < 10 {
        seq![digit(0), digit(n)]
    } else {
        decimal(n)
    }
}

/// The number that a string of decimal digits denotes.
pub open spec fn number_of(digits: Seq<char>) -> int
    decreases digits.len(),
{
    if digits.len() == 0 {
        0
    } else {
        10 * number_of(digits.drop_last()) + (digits.last() as u32 - '0' as u32)
    }
}

/// The pieces one after the other.
pub open spec fn joined(pieces: Seq<Seq<char>>) -> Seq<char>
    decreases pieces.len(),
{
    if pieces.len() == 0 {
        Seq::empty()
    } else {
        joined(pieces.drop_last()) + pieces.last()
    }
}

/// What a line of `capacity` bytes holds after `pieces` were written to it, and
/// whether one of them did not fit.
pub open spec fn written(pieces: Seq<Seq<char>>, capacity: nat) -> (Seq<char>, bool)
    decreases pieces.len(),
{
    if pieces.len() == 0 {
        (Seq::empty(), false)
    } else {
        let (text, full) = written(pieces.drop_last(), capacity);
        if full || byte_len(text + pieces.last()) > capacity {
            (text, true)
        } else {
            (text + pieces.last(), false)
        }
    }
}

/// What a line of `capacity` bytes holds after `pieces` were written to it.
pub open spec fn bounded(pieces: Seq<Seq<char>>, capacity: nat) -> Seq<char> {
    written(pieces, capacity).0
}

/// Bytes add up when text is put together.
pub proof fn lemma_byte_len_concat(a: Seq<char>, b: Seq<char>)
    ensures
        byte_len(a + b) == byte_len(a) + byte_len(b),
    decreases a.len(),
{
    if a.len() == 0 {
        assert(a + b =~= b);
    } else {
        lemma_byte_len_concat(a.drop_first(), b);
        assert((a + b).drop_first() =~= a.drop_first() + b);
        assert((a + b)[0] == a[0]);
    }
}

/// A character takes a byte or more.
pub proof fn lemma_chars_within_bytes(text: Seq<char>)
    ensures
        text.len() <= byte_len(text),
    decreases text.len(),
{
    if text.len() > 0 {
        lemma_chars_within_bytes(text.drop_first());
    }
}

/// ASCII text takes one byte per character.
pub proof fn lemma_ascii_byte_len(text: Seq<char>)
    requires
        is_ascii_chars(text),
    ensures
        byte_len(text) == text.len(),
{
    is_ascii_chars_encode_utf8(text);
}

/// A number takes as many bytes as it has digits.
pub proof fn lemma_decimal_len(n: nat, digits: nat)
    requires
        digits > 0,
        n < vstd::arithmetic::power::pow(10, digits),
    ensures
        is_ascii_chars(decimal(n)),
        byte_len(decimal(n)) == decimal(n).len(),
        0 < decimal(n).len() <= digits,
    decreases digits,
{
    reveal(vstd::arithmetic::power::pow);
    if n >= 10 {
        assert(vstd::arithmetic::power::pow(10, 0) == 1);
        let less = (digits - 1) as nat;
        assert(vstd::arithmetic::power::pow(10, digits) == 10 * vstd::arithmetic::power::pow(10, less));
        if less == 0 {
            assert(false);
        }
        lemma_decimal_len(n / 10, less);
    }
    lemma_ascii_byte_len(decimal(n));
}

/// Digit counts of the number types that reach the screens.
pub proof fn lemma_number_widths()
    ensures
        vstd::arithmetic::power::pow(10, 5) == 100_000,
        vstd::arithmetic::power::pow(10, 10) == 10_000_000_000,
{
    reveal(vstd::arithmetic::power::pow);
    reveal_with_fuel(vstd::arithmetic::power::pow, 11);
}

/// A decimal number reads back as the number it was made from.
pub proof fn law_decimal_reads_back(n: nat)
    ensures
        number_of(decimal(n)) == n,
    decreases n,
{
    if n < 10 {
        reveal_with_fuel(number_of, 2);
        assert(decimal(n).drop_last() =~= Seq::<char>::empty());
    } else {
        law_decimal_reads_back(n / 10);
        assert(decimal(n).drop_last() =~= decimal(n / 10));
    }
}

/// A line never holds more than its capacity, and what it holds is a beginning
/// of the text that was written to it.
pub proof fn law_line_is_a_prefix(pieces: Seq<Seq<char>>, capacity: nat)
    ensures
        byte_len(bounded(pieces, capacity)) <= capacity,
        bounded(pieces, capacity).is_prefix_of(joined(pieces)),
        !written(pieces, capacity).1 ==> bounded(pieces, capacity) == joined(pieces),
    decreases pieces.len(),
{
    if pieces.len() > 0 {
        law_line_is_a_prefix(pieces.drop_last(), capacity);
        let (text, full) = written(pieces.drop_last(), capacity);
        let all = joined(pieces.drop_last());
        assert(joined(pieces) == all + pieces.last());
        assert(text.is_prefix_of(all));
        assert((all + pieces.last()).subrange(0, text.len() as int) =~= all.subrange(
            0,
            text.len() as int,
        ));
    }
}

/// Text that fits the line is held whole.
pub proof fn law_line_holds_what_fits(pieces: Seq<Seq<char>>, capacity: nat)
    requires
        byte_len(joined(pieces)) <= capacity,
    ensures
        bounded(pieces, capacity) == joined(pieces),
        !written(pieces, capacity).1,
    decreases pieces.len(),
{
    if pieces.len() > 0 {
        lemma_byte_len_concat(joined(pieces.drop_last()), pieces.last());
        law_line_holds_what_fits(pieces.drop_last(), capacity);
    }
}

/// Pieces followed by pieces.
pub proof fn lemma_joined_concat(a: Seq<Seq<char>>, b: Seq<Seq<char>>)
    ensures
        joined(a + b) == joined(a) + joined(b),
    decreases b.len(),
{
    if b.len() == 0 {
        assert(a + b =~= a);
        assert(joined(a) + joined(b) =~= joined(a));
    } else {
        lemma_joined_concat(a, b.drop_last());
        assert((a + b).drop_last() =~= a + b.drop_last());
        assert(joined(a + b) =~= joined(a) + joined(b));
    }
}

/// The first piece, if it fits, stays on the line.
pub proof fn lemma_first_piece_stays(pieces: Seq<Seq<char>>, capacity: nat)
    requires
        pieces.len() > 0,
        byte_len(pieces[0]) <= capacity,
    ensures
        bounded(pieces, capacity).len() >= pieces[0].len(),
    decreases pieces.len(),
{
    if pieces.len() == 1 {
        lemma_one_piece(pieces[0], capacity);
        assert(pieces =~= seq![pieces[0]]);
    } else {
        lemma_first_piece_stays(pieces.drop_last(), capacity);
    }
}

/// One piece that fits.
pub proof fn lemma_one_piece(a: Seq<char>, capacity: nat)
    requires
        byte_len(a) <= capacity,
    ensures
        bounded(seq![a], capacity) == a,
{
    assert(seq![a].drop_last() =~= Seq::<Seq<char>>::empty());
    assert(joined(Seq::<Seq<char>>::empty()) =~= Seq::<char>::empty());
    assert(joined(seq![a]) =~= a);
    law_line_holds_what_fits(seq![a], capacity);
}

/// Two pieces that fit.
pub proof fn lemma_two_pieces(a: Seq<char>, b: Seq<char>, capacity: nat)
    requires
        byte_len(a) + byte_len(b) <= capacity,
    ensures
        bounded(seq![a, b], capacity) == a + b,
{
    lemma_byte_len_concat(a, b);
    lemma_join_two(a, b);
    law_line_holds_what_fits(seq![a, b], capacity);
}

/// Four pieces that fit.
pub proof fn lemma_four_pieces(
    a: Seq<char>,
    b: Seq<char>,
    c: Seq<char>,
    d: Seq<char>,
    capacity: nat,
)
    requires
        byte_len(a) + byte_len(b) + byte_len(c) + byte_len(d) <= capacity,
    ensures
        bounded(seq![a, b, c, d], capacity) == a + b + c + d,
{
    lemma_byte_len_concat(a, b);
    lemma_byte_len_concat(a + b, c);
    lemma_byte_len_concat(a + b + c, d);
    lemma_join_two(a, b);
    assert(seq![a, b, c, d].drop_last() =~= seq![a, b, c]);
    assert(seq![a, b, c].drop_last() =~= seq![a, b]);
    assert(joined(seq![a, b, c]) == a + b + c);
    law_line_holds_what_fits(seq![a, b, c, d], capacity);
}

/// Three pieces that fit.
pub proof fn lemma_three_pieces(a: Seq<char>, b: Seq<char>, c: Seq<char>, capacity: nat)
    requires
        byte_len(a) + byte_len(b) + byte_len(c) <= capacity,
    ensures
        bounded(seq![a, b, c], capacity) == a + b + c,
{
    lemma_byte_len_concat(a, b);
    lemma_byte_len_concat(a + b, c);
    lemma_join_two(a, b);
    assert(seq![a, b, c].drop_last() =~= seq![a, b]);
    law_line_holds_what_fits(seq![a, b, c], capacity);
}

proof fn lemma_join_two(a: Seq<char>, b: Seq<char>)
    ensures
        joined(seq![a, b]) == a + b,
{
    reveal_with_fuel(joined, 3);
    assert(seq![a, b].drop_last() =~= seq![a]);
    assert(seq![a].drop_last() =~= Seq::<Seq<char>>::empty());
    assert(joined(seq![a, b]) =~= a + b);
}

/// The decimal digit for `d`.
fn digit_str(d: u32) -> (s: &'static str)
    requires
        d < 10,
    ensures
        s@ == seq![digit(d as nat)],
{
    proof {
        reveal_strlit("0");
        reveal_strlit("1");
        reveal_strlit("2");
        reveal_strlit("3");
        reveal_strlit("4");
        reveal_strlit("5");
        reveal_strlit("6");
        reveal_strlit("7");
        reveal_strlit("8");
        reveal_strlit("9");
    }
    let s = match d {
        0 => "0",
        1 => "1",
        2 => "2",
        3 => "3",
        4 => "4",
        5 => "5",
        6 => "6",
        7 => "7",
        8 => "8",
        _ => "9",
    };
    assert(s@ =~= seq![digit(d as nat)]);
    s
}

/// `n` in decimal.
pub fn to_decimal(n: u32) -> (s: String)
    ensures
        s@ == decimal(n as nat),
    decreases n,
{
    if n < 10 {
        digit_str(n).to_owned()
    } else {
        let mut s = to_decimal(n / 10);
        s.append(digit_str(n % 10));
        assert(s@ =~= decimal(n as nat));
        s
    }
}

/// `n` in decimal, padded with a zero to two digits.
pub fn to_two_digits(n: u32) -> (s: String)
    ensures
        s@ == two_digits(n as nat),
{
    if n < 10 {
        let mut s = digit_str(0).to_owned();
        s.append(digit_str(n));
        assert(s@ =~= two_digits(n as nat));
        s
    } else {
        to_decimal(n)
    }
}

/// Appends with `heapless::String::push_str` on a string of capacity `N` made
/// by its `try_from`. Claims that the piece is appended whole when the bytes of
/// both fit, and that the call fails otherwise.
#[verifier::external_body]
fn push_within<const N: usize>(text: &str, piece: &str) -> (longer: Option<String>)
    requires
        byte_len(text@) <= N,
    ensures
        byte_len(text@ + piece@) <= N ==> longer is Some && longer->0@ == text@ + piece@,
        byte_len(text@ + piece@) > N ==> longer is None,
{
    let mut line = heapless::String::<N>::try_from(text).ok()?;
    line.push_str(piece).ok()?;
    Some(String::from(line.as_str()))
}

/// A decimal number with a fraction, in the pieces in which it is written down:
/// sign, whole digits, point, digits of the fraction. On a line each piece is kept
/// whole or left out, so a number that is too long for its line is kept in part.
pub struct Number {
    pub pieces: Vec<String>,
}

impl View for Number {
    type V = Seq<Seq<char>>;

    /// The pieces.
    open spec fn view(&self) -> Seq<Seq<char>> {
        Seq::new(self.pieces@.len(), |i: int| self.pieces@[i]@)
    }
}

/// A line of at most `N` bytes under construction.
pub struct Line<const N: usize> {
    text: String,
    full: bool,
    pieces: Ghost<Seq<Seq<char>>>,
}

impl<const N: usize> View for Line<N> {
    type V = Seq<Seq<char>>;

    /// The pieces written so far. They decide the text on the line, and whether a
    /// piece was left out.
    closed spec fn view(&self) -> Seq<Seq<char>> {
        self.pieces@
    }
}

impl<const N: usize> Line<N> {
    /// The text is what the pieces written so far leave on the line.
    #[verifier::type_invariant]
    spec fn wf(self) -> bool {
        (self.text@, self.full) == written(self.pieces@, N as nat)
    }

    /// An empty line.
    pub fn new() -> (line: Self)
        ensures
            line@ == Seq::<Seq<char>>::empty(),
    {
        Line { text: String::new(), full: false, pieces: Ghost(Seq::empty()) }
    }

    /// Write one more piece. A piece that does not fit ends the line.
    pub fn put(self, piece: &str) -> (line: Self)
        ensures
            line@ == self@.push(piece@),
    {
        proof {
            use_type_invariant(&self);
            law_line_is_a_prefix(self.pieces@, N as nat);
            assert(self.pieces@.push(piece@).drop_last() =~= self.pieces@);
        }
        let Line { text, full, pieces } = self;
        let pieces: Ghost<Seq<Seq<char>>> = Ghost(pieces@.push(piece@));
        if full {
            return Line { text, full, pieces };
        }
        match push_within::<N>(text.as_str(), piece) {
            Some(longer) => Line { text: longer, full: false, pieces },
            None => Line { text, full: true, pieces },
        }
    }

    /// Write the pieces of a number.
    pub fn put_number(self, number: &Number) -> (line: Self)
        ensures
            line@ == self@ + number@,
    {
        let ghost before = self@;
        let mut line = self;
        let mut i: usize = 0;
        assert(before + number@.take(0) =~= before);
        while i < number.pieces.len()
            invariant
                i <= number.pieces@.len(),
                line@ == before + number@.take(i as int),
            decreases number.pieces@.len() - i,
        {
            line = line.put(number.pieces[i].as_str());
            assert(number@.take(i + 1) =~= number@.take(i as int).push(number@[i as int]));
            i += 1;
            assert(line@ =~= before + number@.take(i as int));
        }
        assert(number@.take(i as int) =~= number@);
        line
    }

    /// The text of the line.
    pub fn finish(self) -> (text: String)
        ensures
            text@ == bounded(self@, N as nat),
    {
        proof {
            use_type_invariant(&self);
        }
        self.text
    }
}

/// A decimal number is made of decimal digits and has no leading zero, so together
/// with reading back as the number it is the one way to write it down.
pub proof fn law_decimal_is_plain(n: nat)
    ensures
        decimal(n).len() > 0,
        forall|i: int| 0 <= i < decimal(n).len() ==> '0' <= #[trigger] decimal(n)[i] <= '9',
        n > 0 ==> decimal(n)[0] != '0',
        n == 0 ==> decimal(n) == seq!['0'],
        number_of(decimal(n)) == n,
    decreases n,
{
    law_decimal_reads_back(n);
    if n >= 10 {
        law_decimal_is_plain(n / 10);
    }
}

/// A number below a hundred takes exactly two digits when it is padded, and reads
/// back; a larger one is not padded.
pub proof fn law_two_digits_are_padded(n: nat)
    ensures
        n < 100 ==> two_digits(n).len() == 2,
        n >= 100 ==> two_digits(n) == decimal(n),
        number_of(two_digits(n)) == n,
        forall|i: int| 0 <= i < two_digits(n).len() ==> '0' <= #[trigger] two_digits(n)[i] <= '9',
{
    law_decimal_is_plain(n);
    if n < 10 {
        let text = two_digits(n);
        reveal_with_fuel(number_of, 3);
        assert(text.drop_last().drop_last() =~= Seq::<char>::empty());
        assert(text.drop_last()[0] == digit(0));
    } else if n < 100 {
        reveal_with_fuel(decimal, 3);
    }
}

/// A line keeps whole pieces from the front for as long as they fit, and nothing
/// from the first one on that does not.
pub proof fn law_line_stops_at_the_first_overflow(
    pieces: Seq<Seq<char>>,
    capacity: nat,
    kept: int,
)
    requires
        0 <= kept <= pieces.len(),
        byte_len(joined(pieces.take(kept))) <= capacity,
        kept < pieces.len() ==> byte_len(joined(pieces.take(kept + 1))) > capacity,
    ensures
        bounded(pieces, capacity) == joined(pieces.take(kept)),
{
    lemma_written_up_to(pieces, capacity, kept);
}

proof fn lemma_written_up_to(pieces: Seq<Seq<char>>, capacity: nat, kept: int)
    requires
        0 <= kept <= pieces.len(),
        byte_len(joined(pieces.take(kept))) <= capacity,
        kept < pieces.len() ==> byte_len(joined(pieces.take(kept + 1))) > capacity,
    ensures
        written(pieces, capacity) == (joined(pieces.take(kept)), kept < pieces.len()),
    decreases pieces.len(),
{
    if kept == pieces.len() {
        assert(pieces.take(kept) =~= pieces);
        law_line_holds_what_fits(pieces, capacity);
    } else {
        let most = pieces.drop_last();
        assert(most.take(kept) =~= pieces.take(kept));
        if kept < most.len() {
            assert(most.take(kept + 1) =~= pieces.take(kept + 1));
        } else {
            assert(pieces.take(kept + 1) =~= pieces);
            assert(most =~= pieces.take(kept));
        }
        lemma_written_up_to(most, capacity, kept);
    }
}

/// The pieces of a line stand in the order in which they were written.
pub proof fn law_pieces_are_joined_in_order(pieces: Seq<Seq<char>>, piece: Seq<char>)
    ensures
        joined(Seq::<Seq<char>>::empty()) == Seq::<char>::empty(),
        joined(pieces.push(piece)) == joined(pieces) + piece,
{
    assert(pieces.push(piece).drop_last() =~= pieces);
    assert(joined(Seq::<Seq<char>>::empty()) =~= Seq::<char>::empty());
}

} // verus!
