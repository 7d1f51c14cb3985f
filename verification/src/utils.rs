//! Small helpers around user input and terminal output.
//!
//! The review loop talks to a human: it reads answer lines (trimmed of
//! trailing whitespace) and parses the optional day-count override, and it
//! clears the screen between cards.  The I/O itself happens at the
//! caller's edge; here live the computations — trimming, parsing, and the
//! escape bytes to emit.

use crate::codec::{digit_val, is_digit, DASH, D0, D9};
use crate::review::ReviewError;
use vstd::prelude::*;

verus! {

/// The byte `+`, an accepted explicit sign on an override.
pub const PLUS: u8 = 43;

/// ASCII whitespace, as trimmed from the end of an input line.
pub open spec fn is_ascii_ws(b: u8) -> bool {
    b == 32 || b == 9 || b == 10 || b == 13 || b == 11 || b == 12
}

/// Length of the line once trailing ASCII whitespace is dropped.
pub open spec fn trimmed_len(s: Seq<u8>) -> int
    decreases s.len(),
{
    if s.len() == 0 {
        0
    } else if is_ascii_ws(s[s.len() - 1]) {
        trimmed_len(s.drop_last())
    } else {
        s.len() as int
    }
}

/// The trimmed length never leaves the line.
pub proof fn lemma_trimmed_len_bounds(s: Seq<u8>)
    ensures
        0 <= trimmed_len(s) <= s.len(),
    decreases s.len(),
{
    if s.len() > 0 && is_ascii_ws(s[s.len() - 1]) {
        lemma_trimmed_len_bounds(s.drop_last());
    }
}

/// An input line as the review engine reads it: the raw bytes with any
/// trailing whitespace (the line break included) removed.
pub fn read_line(input: &Vec<u8>) -> (r: Vec<u8>)
    ensures
        r@ == input@.subrange(0, trimmed_len(input@)),
{
    proof {
        lemma_trimmed_len_bounds(input@);
        assert(input@.subrange(0, input@.len() as int) =~= input@);
    }
    let mut e = input.len();
    loop
        invariant
            e <= input.len(),
            trimmed_len(input@) == trimmed_len(input@.subrange(0, e as int)),
            trimmed_len(input@.subrange(0, e as int)) <= e,
        ensures
            e <= input.len(),
            trimmed_len(input@) == e as int,
        decreases e,
    {
        if e == 0 {
            break;
        }
        let b = *input.get(e - 1).unwrap();
        if !(b == 32 || b == 9 || b == 10 || b == 13 || b == 11 || b == 12) {
            proof {
                assert(trimmed_len(input@.subrange(0, e as int)) == e);
            }
            break;
        }
        proof {
            let pre = input@.subrange(0, e as int);
            let pre2 = input@.subrange(0, e - 1);
            assert(pre.drop_last() =~= pre2);
            lemma_trimmed_len_bounds(pre2);
        }
        e = e - 1;
    }
    crate::codec::copy_range(input, 0, e)
}

/// The escape bytes that clear the terminal and home the cursor.
pub open spec fn clear_bytes() -> Seq<u8> {
    seq![27u8, 91u8, 50u8, 74u8, 27u8, 91u8, 49u8, 59u8, 49u8, 72u8]
}

/// What to write to clear the screen between two cards: clear the
/// terminal, then move the cursor to the top left corner.
pub fn clear() -> (r: Vec<u8>)
    ensures
        r@ == clear_bytes(),
{
    let mut v: Vec<u8> = Vec::new();
    v.push(27);
    v.push(91);
    v.push(50);
    v.push(74);
    v.push(27);
    v.push(91);
    v.push(49);
    v.push(59);
    v.push(49);
    v.push(72);
    proof {
        assert(v@ =~= clear_bytes());
    }
    v
}

/// Value of a digit string, most significant digit first.
pub open spec fn digits_value(s: Seq<u8>) -> int
    decreases s.len(),
{
    if s.len() == 0 {
        0
    } else {
        digits_value(s.drop_last()) * 10 + digit_val(s.last())
    }
}

/// Every byte is a decimal digit.
pub open spec fn all_digits(s: Seq<u8>) -> bool {
    forall|i: int| 0 <= i < s.len() ==> is_digit(#[trigger] s[i])
}

/// The digit string once an optional single leading sign is dropped.
pub open spec fn unsigned_part(s: Seq<u8>) -> Seq<u8> {
    if s.len() > 0 && (s[0] == DASH || s[0] == PLUS) {
        s.subrange(1, s.len() as int)
    } else {
        s
    }
}

/// Whether the value is negated by a leading minus sign.
pub open spec fn is_negative(s: Seq<u8>) -> bool {
    s.len() > 0 && s[0] == DASH
}

/// The integer a byte string denotes: an optional sign followed by at
/// least one decimal digit.  Anything else denotes nothing.
pub open spec fn spec_parse_int(s: Seq<u8>) -> Option<int> {
    if unsigned_part(s).len() > 0 && all_digits(unsigned_part(s)) {
        if is_negative(s) {
            Some(-digits_value(unsigned_part(s)))
        } else {
            Some(digits_value(unsigned_part(s)))
        }
    } else {
        None
    }
}

/// A digit string's value is never negative.
pub proof fn lemma_digits_value_nonneg(s: Seq<u8>)
    requires
        all_digits(s),
    ensures
        digits_value(s) >= 0,
    decreases s.len(),
{
    if s.len() > 0 {
        assert(all_digits(s.drop_last()));
        lemma_digits_value_nonneg(s.drop_last());
    }
}

/// Extending a digit string never shrinks its value.
pub proof fn lemma_digits_value_prefix(s: Seq<u8>, i: int)
    requires
        all_digits(s),
        0 <= i <= s.len(),
    ensures
        digits_value(s.subrange(0, i)) <= digits_value(s),
    decreases s.len() - i,
{
    if i == s.len() {
        assert(s.subrange(0, i) =~= s);
    } else {
        let t = s.subrange(0, i + 1);
        assert(t.drop_last() =~= s.subrange(0, i));
        assert(all_digits(t));
        lemma_digits_value_nonneg(s.subrange(0, i));
        assert(digits_value(s.subrange(0, i)) <= digits_value(t));
        lemma_digits_value_prefix(s, i + 1);
    }
}

/// Parses the user's day-count override: an optional sign and at least
/// one decimal digit, valued within a signed 64-bit day count.  Returns
/// the count exactly when the input denotes one in range; everything else
/// is an invalid interval.
#[verifier::loop_isolation(false)]
#[verifier::rlimit(60)]
pub fn parse_timespan(s: &Vec<u8>) -> (r: Result<i64, ReviewError>)
    ensures
        r.is_ok() <==> (spec_parse_int(s@) matches Some(v) && i64::MIN <= v <= i64::MAX),
        (r matches Ok(n) ==> spec_parse_int(s@) == Some(n as int)),
        (r matches Err(e) ==> e == ReviewError::InvalidInterval),
{
    let mut i: usize = 0;
    let mut neg = false;
    if s.len() > 0 && (*s.get(0).unwrap() == DASH || *s.get(0).unwrap() == PLUS) {
        neg = *s.get(0).unwrap() == DASH;
        i = 1;
    }
    let ghost digits = unsigned_part(s@);
    proof {
        assert(digits =~= s@.subrange(i as int, s@.len() as int));
    }
    if i == s.len() {
        return Err(ReviewError::InvalidInterval);
    }
    let start = i;
    let mut acc: i64 = 0;
    while i < s.len()
        invariant
            start <= i <= s.len(),
            digits == s@.subrange(start as int, s@.len() as int),
            all_digits(digits.subrange(0, i - start)),
            acc <= 0,
            -acc as int == digits_value(digits.subrange(0, i - start)),
        decreases s.len() - i,
    {
        let b = *s.get(i).unwrap();
        if b < D0 || b > D9 {
            assert(!is_digit(digits[i - start]));
            return Err(ReviewError::InvalidInterval);
        }
        let d = (b - D0) as i64;
        proof {
            let pre = digits.subrange(0, i - start);
            let post = digits.subrange(0, i + 1 - start);
            assert(post.drop_last() =~= pre);
            assert(post.last() == digits[i - start]);
        }
        if acc < -922337203685477580i64 || (acc == -922337203685477580i64 && d > 8) {
            proof {
                let took = digits.subrange(0, i + 1 - start);
                assert(all_digits(took));
                assert(digits_value(took) > 9223372036854775808int);
                if all_digits(digits) {
                    lemma_digits_value_prefix(digits, i + 1 - start);
                    assert(digits_value(digits) > 9223372036854775808int);
                }
            }
            return Err(ReviewError::InvalidInterval);
        }
        acc = acc * 10 - d;
        i = i + 1;
    }
    proof {
        assert(digits.subrange(0, s@.len() - start) =~= digits);
    }
    if neg {
        Ok(acc)
    } else {
        if acc == i64::MIN {
            return Err(ReviewError::InvalidInterval);
        }
        Ok(-acc)
    }
}

} // verus!
