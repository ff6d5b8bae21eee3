//! Reading what the user typed.

use crate::text::{LOWER_N, lower_seq, to_lower, trim, trimmed};
use vstd::prelude::*;

verus! {

/// An answer as it is judged: trimmed and lower-cased.
pub open spec fn normalized(raw: Seq<u8>) -> Seq<u8> {
    lower_seq(trim(raw))
}

/// An answer declines when it holds the letter `n` anywhere. Everything
/// else, the empty answer included, agrees.
pub open spec fn declines(answer: Seq<u8>) -> bool {
    exists|i: int| 0 <= i < answer.len() && answer[i] == LOWER_N
}

/// A credential as typed: the line without the whitespace around it, and
/// otherwise byte for byte, since a credential is an opaque token.
pub fn credential_from_line(raw: &[u8]) -> (credential: Vec<u8>)
    ensures
        credential@ == trim(raw@),
{
    trimmed(raw)
}

/// Trims and lower-cases a line that the user typed.
pub fn normalize_answer(raw: &[u8]) -> (answer: Vec<u8>)
    ensures
        answer@ == normalized(raw@),
{
    let inner = trimmed(raw);
    to_lower(inner.as_slice())
}

/// Whether a normalized answer agrees to what was asked.
pub fn consents(answer: &[u8]) -> (yes: bool)
    ensures
        yes == !declines(answer@),
{
    let mut i: usize = 0;
    while i < answer.len()
        invariant
            i <= answer@.len(),
            forall|j: int| 0 <= j < i ==> answer@[j] != LOWER_N,
        decreases answer@.len() - i,
    {
        if answer[i] == LOWER_N {
            return false;
        }
        i += 1;
    }
    true
}

} // verus!
