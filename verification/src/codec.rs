//! The record codec: one card per line, pipe-delimited, dates fixed-width.
//!
//! A stored line is `front|back|D|D|D|D\n` where each `D` is a ten-byte ISO
//! calendar date `YYYY-MM-DD` and the four dates are, in order, the last and
//! next forward review and the last and next backward review.  Texts may not
//! contain the delimiter `|`, the quote byte `#`, or a line break; under
//! that restriction no quoting is ever needed and the encoding of a card is
//! unique.
//!
//! The codec's central guarantee, on which the in-place rewrite of a
//! reviewed record rests, is that decoding and encoding are exact inverses:
//! any line that decodes re-encodes to the very same bytes, so a rewrite
//! that changes only date fields never changes a line's byte length.

use crate::dates::{days_in_month, in_store_range, is_leap_year, is_valid_ymd, Date};
use crate::models::{Card, CardModel};
use vstd::prelude::*;

verus! {

/// The field delimiter `|`.
pub const PIPE: u8 = 124;
/// The quote byte `#`, never allowed in a stored text.
pub const QUOTE: u8 = 35;
/// Line feed, the record terminator.
pub const NL: u8 = 10;
/// Carriage return, never allowed inside a record.
pub const CR: u8 = 13;
/// The byte `-`, the ISO date separator.
pub const DASH: u8 = 45;
/// The byte `0`.
pub const D0: u8 = 48;
/// The byte `9`.
pub const D9: u8 = 57;

/// Bytes allowed in a front or back text: anything but the field delimiter,
/// the quote byte, and line breaks.
pub open spec fn text_byte_ok(b: u8) -> bool {
    b != PIPE && b != QUOTE && b != NL && b != CR
}

/// A text field that needs no quoting and never will.
pub open spec fn text_ok(s: Seq<u8>) -> bool {
    forall|i: int| 0 <= i < s.len() ==> text_byte_ok(#[trigger] s[i])
}

/// A card the store can hold: texts that need no quoting, dates that render
/// at the fixed ten-byte width.
pub open spec fn valid_card(c: CardModel) -> bool {
    &&& text_ok(c.front)
    &&& text_ok(c.back)
    &&& in_store_range(c.last_forward_review)
    &&& in_store_range(c.next_forward_review)
    &&& in_store_range(c.last_backward_review)
    &&& in_store_range(c.next_backward_review)
}

pub open spec fn is_digit(b: u8) -> bool {
    D0 <= b <= D9
}

pub open spec fn digit_val(b: u8) -> int {
    b - D0
}

/// Ten bytes shaped like an ISO calendar date: `YYYY-MM-DD`.
pub open spec fn date_bytes_ok(s: Seq<u8>) -> bool {
    &&& s.len() == 10
    &&& is_digit(s[0]) && is_digit(s[1]) && is_digit(s[2]) && is_digit(s[3])
    &&& s[4] == DASH
    &&& is_digit(s[5]) && is_digit(s[6])
    &&& s[7] == DASH
    &&& is_digit(s[8]) && is_digit(s[9])
}

/// The date denoted by ten ISO-shaped bytes.
pub open spec fn date_of_bytes(s: Seq<u8>) -> Date {
    Date {
        year: (digit_val(s[0]) * 1000 + digit_val(s[1]) * 100 + digit_val(s[2]) * 10
            + digit_val(s[3])) as i32,
        month: (digit_val(s[5]) * 10 + digit_val(s[6])) as u8,
        day: (digit_val(s[8]) * 10 + digit_val(s[9])) as u8,
    }
}

/// Decoding of one date field: accepts exactly the ten-byte ISO form of an
/// existing calendar date.
pub open spec fn spec_parse_date(s: Seq<u8>) -> Option<Date> {
    if date_bytes_ok(s) && is_valid_ymd(
        date_of_bytes(s).year as int,
        date_of_bytes(s).month as int,
        date_of_bytes(s).day as int,
    ) {
        Some(date_of_bytes(s))
    } else {
        None
    }
}

/// The ten-byte ISO form of a date of years 0 through 9999.
pub open spec fn spec_format_date(d: Date) -> Seq<u8> {
    seq![
        (d.year as int / 1000 + 48) as u8,
        ((d.year as int / 100) % 10 + 48) as u8,
        ((d.year as int / 10) % 10 + 48) as u8,
        (d.year as int % 10 + 48) as u8,
        DASH,
        (d.month as int / 10 + 48) as u8,
        (d.month as int % 10 + 48) as u8,
        DASH,
        (d.day as int / 10 + 48) as u8,
        (d.day as int % 10 + 48) as u8,
    ]
}

/// Formatting a storable date yields ISO-shaped bytes that decode back to
/// the same date.
pub proof fn lemma_format_then_parse(d: Date)
    requires
        in_store_range(d),
    ensures
        date_bytes_ok(spec_format_date(d)),
        spec_parse_date(spec_format_date(d)) == Some(d),
{
    let s = spec_format_date(d);
    let y = d.year as int;
    let m = d.month as int;
    let dd = d.day as int;
    assert(0 <= y <= 9999 && 1 <= m <= 12 && 1 <= dd <= 31);
    assert(0 <= y / 1000 <= 9 && 0 <= (y / 100) % 10 <= 9 && 0 <= (y / 10) % 10 <= 9
        && 0 <= y % 10 <= 9);
    assert(0 <= m / 10 <= 9 && 0 <= m % 10 <= 9 && 0 <= dd / 10 <= 9 && 0 <= dd % 10 <= 9);
    assert(date_bytes_ok(s));
    assert((y / 1000) * 1000 + ((y / 100) % 10) * 100 + ((y / 10) % 10) * 10 + y % 10 == y) by {
        lemma_digits_rebuild(y);
    };
    assert((m / 10) * 10 + m % 10 == m);
    assert((dd / 10) * 10 + dd % 10 == dd);
    assert(date_of_bytes(s) == d);
}

/// A nonnegative four-digit number is the weighted sum of its digits.
proof fn lemma_digits_rebuild(y: int)
    requires
        0 <= y <= 9999,
    ensures
        (y / 1000) * 1000 + ((y / 100) % 10) * 100 + ((y / 10) % 10) * 10 + y % 10 == y,
{
    assert(y == (y / 10) * 10 + y % 10);
    assert(y / 10 == ((y / 10) / 10) * 10 + (y / 10) % 10);
    assert((y / 10) / 10 == y / 100) by (nonlinear_arith)
        requires 0 <= y;
    assert(y / 100 == ((y / 100) / 10) * 10 + (y / 100) % 10);
    assert((y / 100) / 10 == y / 1000) by (nonlinear_arith)
        requires 0 <= y;
}

/// Parsing ISO-shaped bytes and formatting the result reproduces the bytes.
pub proof fn lemma_parse_then_format(s: Seq<u8>)
    requires
        spec_parse_date(s) is Some,
    ensures
        spec_format_date(spec_parse_date(s)->Some_0) == s,
{
    let d = date_of_bytes(s);
    let y = d.year as int;
    let m = d.month as int;
    let dd = d.day as int;
    let y3 = digit_val(s[0]);
    let y2 = digit_val(s[1]);
    let y1 = digit_val(s[2]);
    let y0 = digit_val(s[3]);
    assert(y == y3 * 1000 + y2 * 100 + y1 * 10 + y0);
    lemma_digit_split_4(y3, y2, y1, y0);
    assert(m == digit_val(s[5]) * 10 + digit_val(s[6]));
    lemma_digit_split_2(digit_val(s[5]), digit_val(s[6]));
    lemma_digit_split_2(digit_val(s[8]), digit_val(s[9]));
    assert(spec_format_date(d) =~= s);
}

/// Division and remainder by powers of ten recover the digits of a
/// four-digit weighted sum.
proof fn lemma_digit_split_4(a: int, b: int, c: int, d: int)
    requires
        0 <= a <= 9 && 0 <= b <= 9 && 0 <= c <= 9 && 0 <= d <= 9,
    ensures
        (a * 1000 + b * 100 + c * 10 + d) / 1000 == a,
        ((a * 1000 + b * 100 + c * 10 + d) / 100) % 10 == b,
        ((a * 1000 + b * 100 + c * 10 + d) / 10) % 10 == c,
        (a * 1000 + b * 100 + c * 10 + d) % 10 == d,
{
    let y = a * 1000 + b * 100 + c * 10 + d;
    assert(y / 1000 == a && (y / 100) % 10 == b && (y / 10) % 10 == c && y % 10 == d)
        by (nonlinear_arith)
        requires
            0 <= a <= 9 && 0 <= b <= 9 && 0 <= c <= 9 && 0 <= d <= 9 && y == a * 1000 + b * 100
                + c * 10 + d;
}

/// Index of the first occurrence of `b` in `s` at or after `from`, or
/// `s.len()` if there is none.
pub open spec fn find_byte(s: Seq<u8>, b: u8, from: int) -> int
    decreases s.len() - from,
{
    if from < 0 || from >= s.len() {
        s.len() as int
    } else if s[from] == b {
        from
    } else {
        find_byte(s, b, from + 1)
    }
}

/// What `find_byte` returns: the first hit, or the length when there is
/// no hit.
pub proof fn lemma_find_byte(s: Seq<u8>, b: u8, from: int)
    requires
        0 <= from <= s.len(),
    ensures
        from <= find_byte(s, b, from) <= s.len(),
        forall|i: int| from <= i < find_byte(s, b, from) ==> s[i] != b,
        find_byte(s, b, from) < s.len() ==> s[find_byte(s, b, from)] == b,
    decreases s.len() - from,
{
    if from < s.len() && s[from] != b {
        lemma_find_byte(s, b, from + 1);
    }
}

/// The unique line encoding a card: texts and dates joined by pipes, with
/// a line-feed terminator.
pub open spec fn spec_encode(c: CardModel) -> Seq<u8> {
    c.front + seq![PIPE] + c.back + seq![PIPE] + spec_format_date(c.last_forward_review)
        + seq![PIPE] + spec_format_date(c.next_forward_review) + seq![PIPE]
        + spec_format_date(c.last_backward_review) + seq![PIPE]
        + spec_format_date(c.next_backward_review) + seq![NL]
}

/// Structural conditions under which a line decodes: a terminating line
/// feed, the four fixed-width date fields with their separators, exactly
/// one pipe inside the text prefix, and quote-free texts.
pub open spec fn decodable(line: Seq<u8>) -> bool {
    let n = line.len() as int;
    let p = find_byte(line, PIPE, 0);
    &&& n >= 46
    &&& line[n - 1] == NL
    &&& line[n - 45] == PIPE
    &&& line[n - 34] == PIPE
    &&& line[n - 23] == PIPE
    &&& line[n - 12] == PIPE
    &&& p < n - 45
    &&& find_byte(line, PIPE, p + 1) == n - 45
    &&& text_ok(line.subrange(0, p))
    &&& text_ok(line.subrange(p + 1, n - 45))
    &&& spec_parse_date(line.subrange(n - 44, n - 34)) is Some
    &&& spec_parse_date(line.subrange(n - 33, n - 23)) is Some
    &&& spec_parse_date(line.subrange(n - 22, n - 12)) is Some
    &&& spec_parse_date(line.subrange(n - 11, n - 1)) is Some
}

/// The card denoted by a decodable line.
pub open spec fn decoded_card(line: Seq<u8>) -> CardModel {
    let n = line.len() as int;
    let p = find_byte(line, PIPE, 0);
    CardModel {
        front: line.subrange(0, p),
        back: line.subrange(p + 1, n - 45),
        last_forward_review: spec_parse_date(line.subrange(n - 44, n - 34))->Some_0,
        next_forward_review: spec_parse_date(line.subrange(n - 33, n - 23))->Some_0,
        last_backward_review: spec_parse_date(line.subrange(n - 22, n - 12))->Some_0,
        next_backward_review: spec_parse_date(line.subrange(n - 11, n - 1))->Some_0,
    }
}

/// Decoding of one stored line, including its terminator.
pub open spec fn spec_decode(line: Seq<u8>) -> Option<CardModel> {
    if decodable(line) {
        Some(decoded_card(line))
    } else {
        None
    }
}

/// The length of a card's encoding depends only on its text lengths: the
/// dates always occupy the same 46 bytes of separators, date digits and
/// terminator.
pub proof fn lemma_encode_len(c: CardModel)
    ensures
        spec_encode(c).len() == c.front.len() + c.back.len() + 46,
{
}

/// A decodable line re-encodes to itself.  In particular a rewrite that
/// keeps the texts and stays within storable dates never changes the byte
/// length of the stored line.
#[verifier::rlimit(100)]
pub proof fn lemma_decode_then_encode(line: Seq<u8>)
    requires
        spec_decode(line) is Some,
    ensures
        valid_card(spec_decode(line)->Some_0),
        spec_encode(spec_decode(line)->Some_0) == line,
{
    let n = line.len() as int;
    let p = find_byte(line, PIPE, 0);
    let c = decoded_card(line);
    lemma_find_byte(line, PIPE, 0);
    lemma_find_byte(line, PIPE, p + 1);
    lemma_parse_then_format(line.subrange(n - 44, n - 34));
    lemma_parse_then_format(line.subrange(n - 33, n - 23));
    lemma_parse_then_format(line.subrange(n - 22, n - 12));
    lemma_parse_then_format(line.subrange(n - 11, n - 1));
    assert(date_in_range_of_parse(line.subrange(n - 44, n - 34)));
    assert(date_in_range_of_parse(line.subrange(n - 33, n - 23)));
    assert(date_in_range_of_parse(line.subrange(n - 22, n - 12)));
    assert(date_in_range_of_parse(line.subrange(n - 11, n - 1)));
    assert(valid_card(c));
    assert(spec_encode(c) =~= line);
}

/// A parsed date field always lies in the store's year range: four digits
/// bound the year by 9999.
pub open spec fn date_in_range_of_parse(s: Seq<u8>) -> bool {
    spec_parse_date(s) is Some ==> in_store_range(spec_parse_date(s)->Some_0)
}

/// The encoding of a valid card decodes, back to the very same card.
pub proof fn lemma_encode_then_decode(c: CardModel)
    requires
        valid_card(c),
    ensures
        spec_decode(spec_encode(c)) == Some(c),
{
    let line = spec_encode(c);
    let n = line.len() as int;
    let fl = c.front.len() as int;
    let bl = c.back.len() as int;
    lemma_format_then_parse(c.last_forward_review);
    lemma_format_then_parse(c.next_forward_review);
    lemma_format_then_parse(c.last_backward_review);
    lemma_format_then_parse(c.next_backward_review);
    assert(n == fl + bl + 46);
    assert(line[fl] == PIPE);
    assert(line[n - 45] == PIPE);
    assert(line[n - 1] == NL);
    // The first pipe of the line is the front/back separator.
    lemma_find_byte(line, PIPE, 0);
    let p = find_byte(line, PIPE, 0);
    assert(forall|i: int| 0 <= i < fl ==> line[i] == c.front[i]);
    assert(p <= fl) by {
        if p > fl {
            assert(line[fl] == PIPE);
        }
    };
    assert(p == fl) by {
        if p < fl {
            assert(line[p] == c.front[p]);
            assert(text_byte_ok(c.front[p]));
        }
    };
    // The second pipe is the separator before the first date field.
    lemma_find_byte(line, PIPE, fl + 1);
    let q = find_byte(line, PIPE, fl + 1);
    assert(forall|i: int| fl + 1 <= i < fl + 1 + bl ==> line[i] == c.back[i - fl - 1]);
    assert(q <= n - 45) by {
        if q > n - 45 {
            assert(line[n - 45] == PIPE);
        }
    };
    assert(q == n - 45) by {
        if q < n - 45 {
            assert(line[q] == c.back[q - fl - 1]);
            assert(text_byte_ok(c.back[q - fl - 1]));
        }
    };
    assert(line.subrange(0, fl) =~= c.front);
    assert(line.subrange(fl + 1, n - 45) =~= c.back);
    assert(line.subrange(n - 44, n - 34) =~= spec_format_date(c.last_forward_review));
    assert(line.subrange(n - 33, n - 23) =~= spec_format_date(c.next_forward_review));
    assert(line.subrange(n - 22, n - 12) =~= spec_format_date(c.last_backward_review));
    assert(line.subrange(n - 11, n - 1) =~= spec_format_date(c.next_backward_review));
    assert(line[n - 34] == PIPE && line[n - 23] == PIPE && line[n - 12] == PIPE);
    assert(decodable(line));
    assert(decoded_card(line) =~= c);
}


/// The bytes of the store's header line: the six field names, pipe
/// delimited, in the order the fields are encoded, with the terminator.
pub open spec fn spec_header() -> Seq<u8> {
    seq![102u8, 114u8, 111u8, 110u8, 116u8, 124u8, 98u8, 97u8, 99u8, 107u8, 124u8, 108u8, 97u8, 115u8, 116u8, 95u8, 102u8, 111u8, 114u8, 119u8, 97u8, 114u8, 100u8, 95u8, 114u8, 101u8, 118u8, 105u8, 101u8, 119u8, 124u8, 110u8, 101u8, 120u8, 116u8, 95u8, 102u8, 111u8, 114u8, 119u8, 97u8, 114u8, 100u8, 95u8, 114u8, 101u8, 118u8, 105u8, 101u8, 119u8, 124u8, 108u8, 97u8, 115u8, 116u8, 95u8, 98u8, 97u8, 99u8, 107u8, 119u8, 97u8, 114u8, 100u8, 95u8, 114u8, 101u8, 118u8, 105u8, 101u8, 119u8, 124u8, 110u8, 101u8, 120u8, 116u8, 95u8, 98u8, 97u8, 99u8, 107u8, 119u8, 97u8, 114u8, 100u8, 95u8, 114u8, 101u8, 118u8, 105u8, 101u8, 119u8, 10u8]
}

/// The header line a fresh store starts with.  The scanner skips the first
/// line of the file, so the engine never reads it back; it exists for the
/// human reader of the store file.
pub fn header_line() -> (r: Vec<u8>)
    ensures
        r@ == spec_header(),
{
    let mut v: Vec<u8> = Vec::new();
    v.push(102);
    v.push(114);
    v.push(111);
    v.push(110);
    v.push(116);
    v.push(124);
    v.push(98);
    v.push(97);
    v.push(99);
    v.push(107);
    v.push(124);
    v.push(108);
    v.push(97);
    v.push(115);
    v.push(116);
    v.push(95);
    v.push(102);
    v.push(111);
    v.push(114);
    v.push(119);
    v.push(97);
    v.push(114);
    v.push(100);
    v.push(95);
    v.push(114);
    v.push(101);
    v.push(118);
    v.push(105);
    v.push(101);
    v.push(119);
    v.push(124);
    v.push(110);
    v.push(101);
    v.push(120);
    v.push(116);
    v.push(95);
    v.push(102);
    v.push(111);
    v.push(114);
    v.push(119);
    v.push(97);
    v.push(114);
    v.push(100);
    v.push(95);
    v.push(114);
    v.push(101);
    v.push(118);
    v.push(105);
    v.push(101);
    v.push(119);
    v.push(124);
    v.push(108);
    v.push(97);
    v.push(115);
    v.push(116);
    v.push(95);
    v.push(98);
    v.push(97);
    v.push(99);
    v.push(107);
    v.push(119);
    v.push(97);
    v.push(114);
    v.push(100);
    v.push(95);
    v.push(114);
    v.push(101);
    v.push(118);
    v.push(105);
    v.push(101);
    v.push(119);
    v.push(124);
    v.push(110);
    v.push(101);
    v.push(120);
    v.push(116);
    v.push(95);
    v.push(98);
    v.push(97);
    v.push(99);
    v.push(107);
    v.push(119);
    v.push(97);
    v.push(114);
    v.push(100);
    v.push(95);
    v.push(114);
    v.push(101);
    v.push(118);
    v.push(105);
    v.push(101);
    v.push(119);
    v.push(10);
    proof {
        assert(v@ =~= spec_header());
    }
    v
}

/// Whether every byte of `v` may stand in a stored text field.
pub fn text_ok_exec(v: &Vec<u8>) -> (r: bool)
    ensures
        r == text_ok(v@),
{
    let mut i = 0usize;
    while i < v.len()
        invariant
            i <= v.len(),
            forall|j: int| 0 <= j < i ==> text_byte_ok(#[trigger] v@[j]),
        decreases v.len() - i,
    {
        let b = *v.get(i).unwrap();
        if b == PIPE || b == QUOTE || b == NL || b == CR {
            assert(!text_byte_ok(v@[i as int]));
            return false;
        }
        i = i + 1;
    }
    true
}

/// Whether the year is a Gregorian leap year.
pub fn is_leap_year_exec(y: i32) -> (r: bool)
    requires
        y >= 0,
    ensures
        r == is_leap_year(y as int),
{
    (y % 4 == 0 && y % 100 != 0) || y % 400 == 0
}

/// Number of days in the given month.
pub fn days_in_month_exec(y: i32, m: u8) -> (r: u8)
    requires
        y >= 0,
        1 <= m <= 12,
    ensures
        r as int == days_in_month(y as int, m as int),
{
    if m == 2 {
        if is_leap_year_exec(y) { 29 } else { 28 }
    } else if m == 4 || m == 6 || m == 9 || m == 11 {
        30
    } else {
        31
    }
}

/// First index at or after `from` holding `b`, or the vector's length.
pub fn find_byte_exec(v: &Vec<u8>, b: u8, from: usize) -> (r: usize)
    requires
        from <= v.len(),
    ensures
        r as int == find_byte(v@, b, from as int),
{
    let mut i = from;
    loop
        invariant
            from <= i <= v.len(),
            find_byte(v@, b, from as int) == find_byte(v@, b, i as int),
        decreases v.len() - i,
    {
        if i == v.len() {
            return i;
        }
        if *v.get(i).unwrap() == b {
            return i;
        }
        i = i + 1;
    }
}

/// A fresh vector holding the bytes of `v` from `a` up to `b`.
pub fn copy_range(v: &Vec<u8>, a: usize, b: usize) -> (r: Vec<u8>)
    requires
        a <= b <= v.len(),
    ensures
        r@ == v@.subrange(a as int, b as int),
{
    let mut out: Vec<u8> = Vec::new();
    let mut i = a;
    while i < b
        invariant
            a <= i <= b <= v.len(),
            out@ == v@.subrange(a as int, i as int),
        decreases b - i,
    {
        out.push(*v.get(i).unwrap());
        proof {
            assert(out@ =~= v@.subrange(a as int, i + 1));
        }
        i = i + 1;
    }
    out
}

/// Parses the ten bytes starting at `start` as an ISO calendar date.
pub fn parse_date_at(v: &Vec<u8>, start: usize) -> (r: Option<Date>)
    requires
        start + 10 <= v.len(),
    ensures
        r == spec_parse_date(v@.subrange(start as int, start as int + 10)),
{
    let ghost s = v@.subrange(start as int, start as int + 10);
    let b0 = *v.get(start).unwrap();
    let b1 = *v.get(start + 1).unwrap();
    let b2 = *v.get(start + 2).unwrap();
    let b3 = *v.get(start + 3).unwrap();
    let b4 = *v.get(start + 4).unwrap();
    let b5 = *v.get(start + 5).unwrap();
    let b6 = *v.get(start + 6).unwrap();
    let b7 = *v.get(start + 7).unwrap();
    let b8 = *v.get(start + 8).unwrap();
    let b9 = *v.get(start + 9).unwrap();
    assert(s[0] == b0 && s[1] == b1 && s[2] == b2 && s[3] == b3 && s[4] == b4 && s[5] == b5
        && s[6] == b6 && s[7] == b7 && s[8] == b8 && s[9] == b9);
    if !(D0 <= b0 && b0 <= D9 && D0 <= b1 && b1 <= D9 && D0 <= b2 && b2 <= D9 && D0 <= b3
        && b3 <= D9 && b4 == DASH && D0 <= b5 && b5 <= D9 && D0 <= b6 && b6 <= D9 && b7 == DASH
        && D0 <= b8 && b8 <= D9 && D0 <= b9 && b9 <= D9) {
        assert(!date_bytes_ok(s));
        return None;
    }
    let year: i32 = (b0 - D0) as i32 * 1000 + (b1 - D0) as i32 * 100 + (b2 - D0) as i32 * 10
        + (b3 - D0) as i32;
    let month: u8 = (b5 - D0) * 10 + (b6 - D0);
    let day: u8 = (b8 - D0) * 10 + (b9 - D0);
    let d = Date { year, month, day };
    assert(d == date_of_bytes(s));
    if month < 1 || month > 12 {
        return None;
    }
    if day < 1 || day > days_in_month_exec(year, month) {
        return None;
    }
    Some(d)
}

/// Appends all bytes of `s`.
pub fn push_all(out: &mut Vec<u8>, s: &Vec<u8>)
    ensures
        final(out)@ == old(out)@ + s@,
{
    let mut i = 0usize;
    while i < s.len()
        invariant
            i <= s.len(),
            out@ == old(out)@ + s@.subrange(0, i as int),
        decreases s.len() - i,
    {
        out.push(*s.get(i).unwrap());
        proof {
            assert(out@ =~= old(out)@ + s@.subrange(0, i + 1));
        }
        i = i + 1;
    }
    proof {
        assert(out@ =~= old(out)@ + s@);
    }
}

/// Appends the ten-byte ISO form of a storable date.
pub fn push_date(out: &mut Vec<u8>, d: Date)
    requires
        in_store_range(d),
    ensures
        final(out)@ == old(out)@ + spec_format_date(d),
{
    let y = d.year;
    let m = d.month;
    let dd = d.day;
    out.push((y / 1000) as u8 + D0);
    out.push(((y / 100) % 10) as u8 + D0);
    out.push(((y / 10) % 10) as u8 + D0);
    out.push((y % 10) as u8 + D0);
    out.push(DASH);
    out.push((m / 10) + D0);
    out.push((m % 10) + D0);
    out.push(DASH);
    out.push((dd / 10) + D0);
    out.push((dd % 10) + D0);
    proof {
        assert(out@ =~= old(out)@ + spec_format_date(d));
    }
}

/// Encodes a card as its unique stored line, terminator included.
pub fn encode_card(card: &Card) -> (out: Vec<u8>)
    requires
        valid_card(card@),
    ensures
        out@ == spec_encode(card@),
{
    let mut out: Vec<u8> = Vec::new();
    push_all(&mut out, &card.front);
    out.push(PIPE);
    push_all(&mut out, &card.back);
    out.push(PIPE);
    push_date(&mut out, card.last_forward_review);
    out.push(PIPE);
    push_date(&mut out, card.next_forward_review);
    out.push(PIPE);
    push_date(&mut out, card.last_backward_review);
    out.push(PIPE);
    push_date(&mut out, card.next_backward_review);
    out.push(NL);
    proof {
        assert(out@ =~= spec_encode(card@));
    }
    out
}

/// Decodes one stored line, terminator included.  Returns the card exactly
/// when the line is a well-formed record; a malformed line yields `None`,
/// never a partial card.
#[verifier::rlimit(100)]
#[verifier::loop_isolation(false)]
pub fn decode_line(line: &Vec<u8>) -> (r: Option<Card>)
    ensures
        (r matches Some(c) ==> spec_decode(line@) == Some(c@)),
        r is None ==> spec_decode(line@) is None,
{
    let n = line.len();
    if n < 46 {
        return None;
    }
    if *line.get(n - 1).unwrap() != NL {
        return None;
    }
    if *line.get(n - 45).unwrap() != PIPE || *line.get(n - 34).unwrap() != PIPE
        || *line.get(n - 23).unwrap() != PIPE || *line.get(n - 12).unwrap() != PIPE {
        return None;
    }
    let p = find_byte_exec(line, PIPE, 0);
    proof {
        lemma_find_byte(line@, PIPE, 0);
    }
    assert(p <= n - 45);
    if p >= n - 45 {
        return None;
    }
    let q = find_byte_exec(line, PIPE, p + 1);
    proof {
        lemma_find_byte(line@, PIPE, p + 1);
    }
    if q != n - 45 {
        return None;
    }
    let mut k = 0usize;
    while k < p
        invariant
            k <= p < n - 45 <= line.len(),
            n == line.len(),
            p as int == find_byte(line@, PIPE, 0),
            forall|j: int| 0 <= j < k ==> text_byte_ok(#[trigger] line@[j]),
        decreases p - k,
    {
        let b = *line.get(k).unwrap();
        if b == QUOTE || b == CR || b == NL {
            assert(!text_byte_ok(line@.subrange(0, p as int)[k as int]));
            return None;
        }
        proof {
            lemma_find_byte(line@, PIPE, 0);
        }
        k = k + 1;
    }
    let mut k2 = p + 1;
    while k2 < n - 45
        invariant
            p + 1 <= k2 <= n - 45 <= line.len(),
            n == line.len(),
            p as int == find_byte(line@, PIPE, 0),
            p < n - 45,
            find_byte(line@, PIPE, p + 1) == n - 45,
            forall|j: int| p + 1 <= j < k2 ==> text_byte_ok(#[trigger] line@[j]),
        decreases n - 45 - k2,
    {
        let b = *line.get(k2).unwrap();
        if b == QUOTE || b == CR || b == NL {
            assert(!text_byte_ok(line@.subrange(p + 1, n - 45)[k2 - p - 1]));
            return None;
        }
        proof {
            lemma_find_byte(line@, PIPE, p + 1);
        }
        k2 = k2 + 1;
    }
    let lf = match parse_date_at(line, n - 44) {
        Some(d) => d,
        None => { return None; },
    };
    let nf = match parse_date_at(line, n - 33) {
        Some(d) => d,
        None => { return None; },
    };
    let lb = match parse_date_at(line, n - 22) {
        Some(d) => d,
        None => { return None; },
    };
    let nb = match parse_date_at(line, n - 11) {
        Some(d) => d,
        None => { return None; },
    };
    let front = copy_range(line, 0, p);
    let back = copy_range(line, p + 1, n - 45);
    let c = Card {
        front,
        back,
        last_forward_review: lf,
        next_forward_review: nf,
        last_backward_review: lb,
        next_backward_review: nb,
    };
    proof {
        assert(text_ok(line@.subrange(0, p as int))) by {
            lemma_find_byte(line@, PIPE, 0);
            assert(forall|j: int| 0 <= j < p ==> #[trigger] line@[j] != PIPE);
            assert(forall|j: int| 0 <= j < p ==> text_byte_ok(
                #[trigger] line@.subrange(0, p as int)[j]));
        };
        assert(text_ok(line@.subrange(p + 1, n - 45))) by {
            lemma_find_byte(line@, PIPE, p + 1);
            assert(forall|j: int| p + 1 <= j < n - 45 ==> #[trigger] line@[j] != PIPE);
            assert(forall|j: int| 0 <= j < n - 45 - p - 1 ==> text_byte_ok(
                #[trigger] line@.subrange(p + 1, n - 45)[j]));
        };
        assert(decodable(line@));
        assert(decoded_card(line@) =~= c@);
    }
    Some(c)
}

/// Division and remainder by ten recover the digits of a two-digit
/// weighted sum.
proof fn lemma_digit_split_2(a: int, b: int)
    requires
        0 <= a <= 9 && 0 <= b <= 9,
    ensures
        (a * 10 + b) / 10 == a,
        (a * 10 + b) % 10 == b,
{
    assert((a * 10 + b) / 10 == a && (a * 10 + b) % 10 == b) by (nonlinear_arith)
        requires
            0 <= a <= 9 && 0 <= b <= 9;
}

} // verus!
