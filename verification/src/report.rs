//! Reading today's total from the service's answer.

use crate::text::{
    ascii, copy_range, DIGIT_NINE, DIGIT_ZERO, find, first_match, lemma_first_match, literal_bytes,
    PLUS,
};
use vstd::prelude::*;

verus! {

/// What precedes the number of seconds in the answer.
pub open spec fn seconds_label() -> Seq<u8> {
    ascii("\"total_seconds\":"@)
}

/// The text that holds the number: what follows the first label, up to
/// the next label if there is one, without its last three bytes, which
/// close the enclosing objects.
pub open spec fn seconds_text(body: Seq<u8>) -> Option<Seq<u8>> {
    match first_match(body, seconds_label()) {
        None => None,
        Some(at) => {
            let rest = body.subrange(at + seconds_label().len(), body.len() as int);
            let piece = match first_match(rest, seconds_label()) {
                Some(end) => rest.subrange(0, end),
                None => rest,
            };
            if piece.len() >= 3 {
                Some(piece.subrange(0, piece.len() - 3))
            } else {
                None
            }
        },
    }
}

/// A decimal digit.
pub open spec fn is_digit(b: u8) -> bool {
    DIGIT_ZERO <= b && b <= DIGIT_NINE
}

/// Nothing but decimal digits.
pub open spec fn all_digits(s: Seq<u8>) -> bool {
    forall|i: int| 0 <= i < s.len() ==> is_digit(s[i])
}

/// The number that a string of decimal digits writes.
pub open spec fn digits_value(s: Seq<u8>) -> nat
    decreases s.len(),
{
    if s.len() == 0 {
        0
    } else {
        digits_value(s.drop_last()) * 10 + if is_digit(s.last()) {
            (s.last() - DIGIT_ZERO) as nat
        } else {
            0nat
        }
    }
}

/// `s` without a leading `+`.
pub open spec fn unsigned_part(s: Seq<u8>) -> Seq<u8> {
    if s.len() > 0 && s[0] == PLUS {
        s.subrange(1, s.len() as int)
    } else {
        s
    }
}

/// The number that `s` writes, where `s` is one or more decimal digits,
/// with or without a `+` before them, and the number fits in 16 bits.
pub open spec fn parsed_u16(s: Seq<u8>) -> Option<u16> {
    let digits = unsigned_part(s);
    if digits.len() > 0 && all_digits(digits) && digits_value(digits) <= 65535 {
        Some(digits_value(digits) as u16)
    } else {
        None
    }
}

/// Today's total in seconds, as the answer gives it.
pub open spec fn today_seconds(body: Seq<u8>) -> Option<u16> {
    match seconds_text(body) {
        Some(text) => parsed_u16(text),
        None => None,
    }
}

/// Whole hours, and the minutes left over, in a number of seconds.
pub open spec fn hours_minutes(seconds: u16) -> (u16, u16) {
    (((seconds / 60) / 60) as u16, ((seconds / 60) % 60) as u16)
}

/// A string of digits writes at least the number that any of its
/// prefixes writes.
proof fn lemma_digits_grow(s: Seq<u8>, k: int)
    requires
        0 <= k <= s.len(),
    ensures
        digits_value(s.subrange(0, k)) <= digits_value(s),
    decreases s.len() - k,
{
    if k == s.len() {
        assert(s.subrange(0, k) =~= s);
    } else {
        lemma_digits_grow(s, k + 1);
        assert(s.subrange(0, k + 1).drop_last() =~= s.subrange(0, k));
    }
}

/// Reads a 16-bit number.
pub fn parse_u16(s: &[u8]) -> (value: Option<u16>)
    ensures
        value == parsed_u16(s@),
{
    let start: usize = if s.len() > 0 && s[0] == PLUS {
        1
    } else {
        0
    };
    if start == s.len() {
        return None;
    }
    let ghost digits = unsigned_part(s@);
    let mut acc: u32 = 0;
    let mut i: usize = start;
    while i < s.len()
        invariant
            start <= i <= s@.len(),
            digits == s@.subrange(start as int, s@.len() as int),
            digits == unsigned_part(s@),
            acc <= 65535,
            acc == digits_value(digits.subrange(0, i - start)),
            forall|j: int| 0 <= j < i - start ==> is_digit(digits[j]),
        decreases s@.len() - i,
    {
        let b = s[i];
        assert(digits[i - start] == b);
        if b < DIGIT_ZERO || b > DIGIT_NINE {
            return None;
        }
        assert(digits.subrange(0, i + 1 - start).drop_last() =~= digits.subrange(0, i - start));
        acc = acc * 10 + (b - DIGIT_ZERO) as u32;
        if acc > 65535 {
            proof {
                lemma_digits_grow(digits, i + 1 - start);
            }
            return None;
        }
        i += 1;
    }
    assert(digits.subrange(0, digits.len() as int) =~= digits);
    Some(acc as u16)
}

/// Finds the text that holds the number of seconds.
pub fn find_seconds_text(body: &[u8]) -> (text: Option<Vec<u8>>)
    ensures
        match text {
            Some(t) => seconds_text(body@) == Some(t@),
            None => seconds_text(body@) is None,
        },
{
    proof {
        reveal_strlit("\"total_seconds\":");
    }
    let label = literal_bytes("\"total_seconds\":");
    proof {
        lemma_first_match(body@, label@);
    }
    match find(body, label.as_slice()) {
        None => None,
        Some(at) => {
            let total = body.len();
            let rest = copy_range(body, at + label.len(), total);
            proof {
                lemma_first_match(rest@, label@);
            }
            let end = match find(rest.as_slice(), label.as_slice()) {
                Some(end) => end,
                None => rest.len(),
            };
            if end >= 3 {
                let text = copy_range(rest.as_slice(), 0, end - 3);
                proof {
                    let piece = rest@.subrange(0, end as int);
                }
                Some(text)
            } else {
                proof {
                    let piece = rest@.subrange(0, end as int);
                }
                None
            }
        },
    }
}

/// Reads today's total in seconds from the service's answer. There is
/// none where the answer does not have the expected shape.
pub fn read_today_seconds(body: &[u8]) -> (seconds: Option<u16>)
    ensures
        seconds == today_seconds(body@),
{
    match find_seconds_text(body) {
        Some(text) => parse_u16(text.as_slice()),
        None => None,
    }
}

/// Splits a number of seconds into whole hours and the minutes left over.
pub fn split_hours_minutes(seconds: u16) -> (parts: (u16, u16))
    ensures
        parts == hours_minutes(seconds),
        parts.1 < 60,
        parts.0 * 3600 + parts.1 * 60 <= seconds < parts.0 * 3600 + parts.1 * 60 + 60,
{
    let minutes = seconds / 60;
    (minutes / 60, minutes % 60)
}

} // verus!
