//! Byte-string primitives shared by the rest of the crate.
//!
//! All text is handled as raw bytes so that content this crate does not
//! understand is carried through untouched. Whitespace and letter case are
//! ASCII notions throughout.

use vstd::prelude::*;
use vstd::string::*;

verus! {

/// The NUL byte.
pub const NUL: u8 = 0;

/// Horizontal tab: the first of the whitespace control bytes.
pub const TAB: u8 = 9;

/// Line feed, which ends a line.
pub const LINE_FEED: u8 = 10;

/// Carriage return: the last of the whitespace control bytes.
pub const CARRIAGE_RETURN: u8 = 13;

/// The space.
pub const SPACE: u8 = 32;

/// `"`
pub const QUOTE: u8 = 34;

/// `#`
pub const HASH: u8 = 35;

/// `+`
pub const PLUS: u8 = 43;

/// `-`
pub const HYPHEN: u8 = 45;

/// `0`
pub const DIGIT_ZERO: u8 = 48;

/// `9`
pub const DIGIT_NINE: u8 = 57;

/// `;`
pub const SEMICOLON: u8 = 59;

/// `=`
pub const EQUALS: u8 = 61;

/// `A`
pub const UPPER_A: u8 = 65;

/// `Z`
pub const UPPER_Z: u8 = 90;

/// `[`
pub const OPEN_BRACKET: u8 = 91;

/// `]`
pub const CLOSE_BRACKET: u8 = 93;

/// `n`
pub const LOWER_N: u8 = 110;

/// How far a lower-case letter lies above its upper-case form.
pub const CASE_GAP: u8 = 32;

/// The bytes of a sequence of ASCII characters.
pub open spec fn ascii(s: Seq<char>) -> Seq<u8> {
    Seq::new(s.len(), |i: int| s[i] as u8)
}

/// Whitespace: space, tab, line feed, vertical tab, form feed, carriage return.
pub open spec fn is_space(b: u8) -> bool {
    b == SPACE || (TAB <= b && b <= CARRIAGE_RETURN)
}

/// The lower-case form of an ASCII letter; every other byte is itself.
pub open spec fn lower(b: u8) -> u8 {
    if UPPER_A <= b && b <= UPPER_Z {
        (b + CASE_GAP) as u8
    } else {
        b
    }
}

/// `s` with every byte lower-cased.
pub open spec fn lower_seq(s: Seq<u8>) -> Seq<u8> {
    Seq::new(s.len(), |i: int| lower(s[i]))
}

/// No byte of `s` equals `b`.
pub open spec fn no_byte(s: Seq<u8>, b: u8) -> bool {
    forall|i: int| 0 <= i < s.len() ==> s[i] != b
}

/// Copies an ASCII string literal into a byte vector.
pub fn literal_bytes(s: &str) -> (out: Vec<u8>)
    requires
        is_ascii(s),
    ensures
        out@ == ascii(s@),
{
    broadcast use is_ascii_spec_bytes;

    let out = s.as_bytes_vec();
    out
}

/// Whether a byte is whitespace.
pub fn byte_is_space(b: u8) -> (r: bool)
    ensures
        r == is_space(b),
{
    b == SPACE || (TAB <= b && b <= CARRIAGE_RETURN)
}

/// The lower-case form of a byte.
pub fn byte_lower(b: u8) -> (r: u8)
    ensures
        r == lower(b),
{
    if UPPER_A <= b && b <= UPPER_Z {
        b + CASE_GAP
    } else {
        b
    }
}

/// Copies `s[lo..hi]`.
pub fn copy_range(s: &[u8], lo: usize, hi: usize) -> (out: Vec<u8>)
    requires
        lo <= hi <= s@.len(),
    ensures
        out@ == s@.subrange(lo as int, hi as int),
{
    let mut out: Vec<u8> = Vec::new();
    let mut i: usize = lo;
    while i < hi
        invariant
            lo <= i <= hi <= s@.len(),
            out@ == s@.subrange(lo as int, i as int),
        decreases hi - i,
    {
        out.push(s[i]);
        i += 1;
    }
    out
}

/// Appends `tail` to `out`.
pub fn append_bytes(out: &mut Vec<u8>, tail: &[u8])
    ensures
        final(out)@ == old(out)@ + tail@,
{
    let mut i: usize = 0;
    while i < tail.len()
        invariant
            i <= tail@.len(),
            out@ == old(out)@ + tail@.subrange(0, i as int),
        decreases tail@.len() - i,
    {
        out.push(tail[i]);
        i += 1;
    }
}

/// Whether two byte strings are equal.
pub fn bytes_eq(a: &[u8], b: &[u8]) -> (r: bool)
    ensures
        r == (a@ == b@),
{
    if a.len() != b.len() {
        return false;
    }
    let mut i: usize = 0;
    while i < a.len()
        invariant
            i <= a@.len(),
            a@.len() == b@.len(),
            forall|j: int| 0 <= j < i ==> a@[j] == b@[j],
        decreases a@.len() - i,
    {
        if a[i] != b[i] {
            return false;
        }
        i += 1;
    }
    assert(a@ =~= b@);
    true
}

/// `s` with every ASCII letter lower-cased.
pub fn to_lower(s: &[u8]) -> (out: Vec<u8>)
    ensures
        out@ == lower_seq(s@),
{
    let mut out: Vec<u8> = Vec::new();
    let mut i: usize = 0;
    while i < s.len()
        invariant
            i <= s@.len(),
            out@.len() == i,
            forall|j: int| 0 <= j < i ==> out@[j] == lower(s@[j]),
        decreases s@.len() - i,
    {
        out.push(byte_lower(s[i]));
        i += 1;
    }
    out
}

/// The first index at or after `i` that holds no whitespace, or the length.
pub open spec fn skip_spaces(s: Seq<u8>, i: int) -> int
    decreases s.len() - i,
{
    if 0 <= i < s.len() && is_space(s[i]) {
        skip_spaces(s, i + 1)
    } else {
        i
    }
}

/// The end of `s[lo..j]` once its trailing whitespace is dropped.
pub open spec fn back_spaces(s: Seq<u8>, lo: int, j: int) -> int
    decreases j,
{
    if 0 <= lo < j <= s.len() && is_space(s[j - 1]) {
        back_spaces(s, lo, j - 1)
    } else {
        j
    }
}

/// Where the trimmed part of `s` starts.
pub open spec fn trim_lo(s: Seq<u8>) -> int {
    skip_spaces(s, 0)
}

/// Where the trimmed part of `s` ends.
pub open spec fn trim_hi(s: Seq<u8>) -> int {
    back_spaces(s, trim_lo(s), s.len() as int)
}

/// `s` without its leading and trailing whitespace.
pub open spec fn trim(s: Seq<u8>) -> Seq<u8> {
    s.subrange(trim_lo(s), trim_hi(s))
}

/// A byte string that trimming leaves alone: it neither starts nor ends
/// with whitespace.
pub open spec fn tight(s: Seq<u8>) -> bool {
    s.len() > 0 ==> !is_space(s[0]) && !is_space(s.last())
}

/// What `skip_spaces` picks: everything from `i` up to it is whitespace,
/// and what stands there is not.
pub proof fn lemma_skip_spaces(s: Seq<u8>, i: int)
    requires
        0 <= i <= s.len(),
    ensures
        i <= skip_spaces(s, i) <= s.len(),
        forall|k: int| i <= k < skip_spaces(s, i) ==> is_space(s[k]),
        skip_spaces(s, i) < s.len() ==> !is_space(s[skip_spaces(s, i)]),
    decreases s.len() - i,
{
    if i < s.len() && is_space(s[i]) {
        lemma_skip_spaces(s, i + 1);
    }
}

/// What `back_spaces` picks: everything from it up to `j` is whitespace,
/// and what stands before it is not.
pub proof fn lemma_back_spaces(s: Seq<u8>, lo: int, j: int)
    requires
        0 <= lo <= j <= s.len(),
    ensures
        lo <= back_spaces(s, lo, j) <= j,
        forall|k: int| back_spaces(s, lo, j) <= k < j ==> is_space(s[k]),
        lo < back_spaces(s, lo, j) ==> !is_space(s[back_spaces(s, lo, j) - 1]),
    decreases j,
{
    if lo < j && is_space(s[j - 1]) {
        lemma_back_spaces(s, lo, j - 1);
    }
}

/// What trimming means: the result is the part of `s` between its leading
/// and its trailing whitespace, and is itself tight.
pub proof fn lemma_trim(s: Seq<u8>)
    ensures
        0 <= trim_lo(s) <= trim_hi(s) <= s.len(),
        forall|k: int| 0 <= k < trim_lo(s) ==> is_space(s[k]),
        forall|k: int| trim_hi(s) <= k < s.len() ==> is_space(s[k]),
        tight(trim(s)),
        trim(s).len() == 0 <==> (forall|k: int| 0 <= k < s.len() ==> is_space(s[k])),
{
    lemma_skip_spaces(s, 0);
    lemma_back_spaces(s, trim_lo(s), s.len() as int);
}

/// Trimming a tight string changes nothing.
pub proof fn lemma_trim_tight(s: Seq<u8>)
    requires
        tight(s),
    ensures
        trim(s) == s,
{
}

/// The bounds of the trimmed part of `s`.
pub fn trim_bounds(s: &[u8]) -> (r: (usize, usize))
    ensures
        r.0 == trim_lo(s@),
        r.1 == trim_hi(s@),
        r.0 <= r.1 <= s@.len(),
{
    let mut lo: usize = 0;
    while lo < s.len() && byte_is_space(s[lo])
        invariant
            lo <= s@.len(),
            skip_spaces(s@, 0) == skip_spaces(s@, lo as int),
        decreases s@.len() - lo,
    {
        lo += 1;
    }
    let mut hi: usize = s.len();
    while hi > lo && byte_is_space(s[hi - 1])
        invariant
            lo <= hi <= s@.len(),
            back_spaces(s@, lo as int, s@.len() as int) == back_spaces(s@, lo as int, hi as int),
        decreases hi,
    {
        hi -= 1;
    }
    (lo, hi)
}

/// `s` without its leading and trailing whitespace.
pub fn trimmed(s: &[u8]) -> (out: Vec<u8>)
    ensures
        out@ == trim(s@),
{
    let (lo, hi) = trim_bounds(s);
    copy_range(s, lo, hi)
}

/// How many bytes of `s` equal `b`.
pub open spec fn count_byte(s: Seq<u8>, b: u8) -> nat
    decreases s.len(),
{
    if s.len() == 0 {
        0
    } else {
        count_byte(s.drop_last(), b) + if s.last() == b {
            1nat
        } else {
            0nat
        }
    }
}

/// The first index at or after `i` that holds `b`, or the length.
pub open spec fn index_from(s: Seq<u8>, b: u8, i: int) -> int
    decreases s.len() - i,
{
    if 0 <= i < s.len() && s[i] != b {
        index_from(s, b, i + 1)
    } else {
        i
    }
}

/// The index of the first `b` in `s`, or the length where there is none.
pub open spec fn index_of(s: Seq<u8>, b: u8) -> int {
    index_from(s, b, 0)
}

/// What `index_from` picks: the least index from `i` on that holds `b`.
pub proof fn lemma_index_from(s: Seq<u8>, b: u8, i: int)
    requires
        0 <= i <= s.len(),
    ensures
        i <= index_from(s, b, i) <= s.len(),
        forall|k: int| i <= k < index_from(s, b, i) ==> s[k] != b,
        index_from(s, b, i) < s.len() ==> s[index_from(s, b, i)] == b,
    decreases s.len() - i,
{
    if i < s.len() && s[i] != b {
        lemma_index_from(s, b, i + 1);
    }
}

/// Counting distributes over joining.
pub proof fn lemma_count_concat(a: Seq<u8>, c: Seq<u8>, b: u8)
    ensures
        count_byte(a + c, b) == count_byte(a, b) + count_byte(c, b),
    decreases c.len(),
{
    if c.len() > 0 {
        assert((a + c).drop_last() =~= a + c.drop_last());
        lemma_count_concat(a, c.drop_last(), b);
    }
}

/// A byte is counted zero times exactly where it does not occur.
pub proof fn lemma_count_none(s: Seq<u8>, b: u8)
    ensures
        count_byte(s, b) == 0 <==> no_byte(s, b),
    decreases s.len(),
{
    if s.len() > 0 {
        lemma_count_none(s.drop_last(), b);
        if no_byte(s.drop_last(), b) && s.last() != b {
            assert forall|i: int| 0 <= i < s.len() implies s[i] != b by {
                if i < s.len() - 1 {
                    assert(s.drop_last()[i] == s[i]);
                }
            }
        }
        if no_byte(s, b) {
            assert forall|i: int| 0 <= i < s.drop_last().len() implies s.drop_last()[i] != b by {}
        }
    }
}

/// How many bytes of `s` equal `b`.
pub fn count_of(s: &[u8], b: u8) -> (n: usize)
    ensures
        n == count_byte(s@, b),
{
    let mut n: usize = 0;
    let mut i: usize = 0;
    while i < s.len()
        invariant
            i <= s@.len(),
            n <= i,
            n == count_byte(s@.take(i as int), b),
        decreases s@.len() - i,
    {
        assert(s@.take(i as int) =~= s@.take(i + 1).drop_last());
        if s[i] == b {
            n += 1;
        }
        i += 1;
    }
    assert(s@.take(s@.len() as int) =~= s@);
    n
}

/// The index of the first `b` in `s`, or the length where there is none.
pub fn position_of(s: &[u8], b: u8) -> (i: usize)
    ensures
        i == index_of(s@, b),
        i <= s@.len(),
{
    let mut i: usize = 0;
    while i < s.len() && s[i] != b
        invariant
            i <= s@.len(),
            index_from(s@, b, 0) == index_from(s@, b, i as int),
        decreases s@.len() - i,
    {
        i += 1;
    }
    i
}

/// `s` with every byte equal to `b` taken out.
pub open spec fn without(s: Seq<u8>, b: u8) -> Seq<u8>
    decreases s.len(),
{
    if s.len() == 0 {
        s
    } else if s.last() == b {
        without(s.drop_last(), b)
    } else {
        without(s.drop_last(), b).push(s.last())
    }
}

/// Taking `b` out of a string that does not hold it changes nothing.
pub proof fn lemma_without_none(s: Seq<u8>, b: u8)
    requires
        no_byte(s, b),
    ensures
        without(s, b) == s,
    decreases s.len(),
{
    if s.len() > 0 {
        assert forall|i: int| 0 <= i < s.drop_last().len() implies s.drop_last()[i] != b by {}
        lemma_without_none(s.drop_last(), b);
    }
}

/// `s` with every byte equal to `b` taken out.
pub fn remove_byte(s: &[u8], b: u8) -> (out: Vec<u8>)
    ensures
        out@ == without(s@, b),
{
    let mut out: Vec<u8> = Vec::new();
    let mut i: usize = 0;
    while i < s.len()
        invariant
            i <= s@.len(),
            out@ == without(s@.take(i as int), b),
        decreases s@.len() - i,
    {
        assert(s@.take(i as int) =~= s@.take(i + 1).drop_last());
        if s[i] != b {
            out.push(s[i]);
        }
        i += 1;
    }
    assert(s@.take(s@.len() as int) =~= s@);
    out
}

/// `needle` stands in `hay` at index `i`.
pub open spec fn match_at(hay: Seq<u8>, needle: Seq<u8>, i: int) -> bool {
    0 <= i && i + needle.len() <= hay.len() && hay.subrange(i, i + needle.len()) == needle
}

/// `needle` stands somewhere in `hay`.
pub open spec fn contains(hay: Seq<u8>, needle: Seq<u8>) -> bool {
    exists|i: int| match_at(hay, needle, i)
}

/// `s` begins with `prefix`.
pub open spec fn starts_with(s: Seq<u8>, prefix: Seq<u8>) -> bool {
    match_at(s, prefix, 0)
}

/// `s` ends with `suffix`.
pub open spec fn ends_with(s: Seq<u8>, suffix: Seq<u8>) -> bool {
    match_at(s, suffix, s.len() - suffix.len())
}

/// Whether `needle` stands in `hay` at index `i`.
pub fn matches_at(hay: &[u8], needle: &[u8], i: usize) -> (r: bool)
    ensures
        r == match_at(hay@, needle@, i as int),
{
    if needle.len() > hay.len() || i > hay.len() - needle.len() {
        return false;
    }
    let mut j: usize = 0;
    while j < needle.len()
        invariant
            j <= needle@.len(),
            i + needle@.len() <= hay@.len() <= usize::MAX,
            forall|k: int| 0 <= k < j ==> hay@[i + k] == needle@[k],
        decreases needle@.len() - j,
    {
        if hay[i + j] != needle[j] {
            return false;
        }
        j += 1;
    }
    assert(hay@.subrange(i as int, i + needle@.len()) =~= needle@);
    true
}

/// The first index from `i` on at which `needle` stands in `hay`.
pub open spec fn match_from(hay: Seq<u8>, needle: Seq<u8>, i: int) -> Option<int>
    decreases hay.len() + 1 - i,
{
    if i < 0 || i + needle.len() > hay.len() {
        None
    } else if match_at(hay, needle, i) {
        Some(i)
    } else {
        match_from(hay, needle, i + 1)
    }
}

/// The first index at which `needle` stands in `hay`.
pub open spec fn first_match(hay: Seq<u8>, needle: Seq<u8>) -> Option<int> {
    match_from(hay, needle, 0)
}

/// What `match_from` picks: the least index from `i` on at which the
/// needle stands, and none where it stands nowhere from `i` on.
pub proof fn lemma_match_from(hay: Seq<u8>, needle: Seq<u8>, i: int)
    requires
        0 <= i,
    ensures
        match match_from(hay, needle, i) {
            Some(k) => i <= k && match_at(hay, needle, k) && forall|j: int|
                i <= j < k ==> !match_at(hay, needle, j),
            None => forall|j: int| i <= j ==> !match_at(hay, needle, j),
        },
    decreases hay.len() + 1 - i,
{
    if i + needle.len() <= hay.len() && !match_at(hay, needle, i) {
        lemma_match_from(hay, needle, i + 1);
    }
}

/// The needle stands in the text exactly when it has a first place there.
pub proof fn lemma_first_match(hay: Seq<u8>, needle: Seq<u8>)
    ensures
        contains(hay, needle) <==> first_match(hay, needle) is Some,
        first_match(hay, needle) matches Some(k) ==> 0 <= k && k + needle.len() <= hay.len(),
{
    lemma_match_from(hay, needle, 0);
    if contains(hay, needle) {
        let i = choose|i: int| match_at(hay, needle, i);
    }
}

/// The first index at which `needle` stands in `hay`.
pub fn find(hay: &[u8], needle: &[u8]) -> (r: Option<usize>)
    ensures
        match r {
            Some(i) => first_match(hay@, needle@) == Some(i as int) && match_at(
                hay@,
                needle@,
                i as int,
            ),
            None => first_match(hay@, needle@) is None && !contains(hay@, needle@),
        },
{
    proof {
        lemma_match_from(hay@, needle@, 0);
        lemma_first_match(hay@, needle@);
    }
    if needle.len() > hay.len() {
        return None;
    }
    let last: usize = hay.len() - needle.len();
    let mut i: usize = 0;
    while i < last
        invariant
            i <= last,
            last == hay@.len() - needle@.len(),
            forall|j: int| 0 <= j < i ==> !match_at(hay@, needle@, j),
            match match_from(hay@, needle@, 0) {
                Some(k) => match_at(hay@, needle@, k) && forall|j: int|
                    0 <= j < k ==> !match_at(hay@, needle@, j),
                None => forall|j: int| 0 <= j ==> !match_at(hay@, needle@, j),
            },
        decreases last - i,
    {
        if matches_at(hay, needle, i) {
            return Some(i);
        }
        i += 1;
    }
    if matches_at(hay, needle, last) {
        Some(last)
    } else {
        assert forall|j: int| 0 <= j implies !match_at(hay@, needle@, j) by {}
        None
    }
}

/// Whether `needle` stands somewhere in `hay`.
pub fn has(hay: &[u8], needle: &[u8]) -> (r: bool)
    ensures
        r == contains(hay@, needle@),
{
    find(hay, needle).is_some()
}

/// Whether `s` begins with `prefix`.
pub fn has_prefix(s: &[u8], prefix: &[u8]) -> (r: bool)
    ensures
        r == starts_with(s@, prefix@),
{
    matches_at(s, prefix, 0)
}

/// Whether `s` ends with `suffix`.
pub fn has_suffix(s: &[u8], suffix: &[u8]) -> (r: bool)
    ensures
        r == ends_with(s@, suffix@),
{
    if suffix.len() > s.len() {
        return false;
    }
    matches_at(s, suffix, s.len() - suffix.len())
}

/// The lines of `s`: the pieces between its line feeds. There is always
/// at least one line, and a text that ends in a line feed ends in an
/// empty line.
pub open spec fn split_lines(s: Seq<u8>) -> Seq<Seq<u8>>
    decreases s.len(),
{
    if s.len() == 0 {
        seq![Seq::<u8>::empty()]
    } else {
        let before = split_lines(s.drop_last());
        if s.last() == LINE_FEED {
            before.push(Seq::<u8>::empty())
        } else {
            before.drop_last().push(before.last().push(s.last()))
        }
    }
}

/// The views of a vector of lines.
pub open spec fn line_views(lines: Seq<Vec<u8>>) -> Seq<Seq<u8>> {
    Seq::new(lines.len(), |i: int| lines[i]@)
}

/// Splits `bytes` at its line feeds.
pub fn split_into_lines(bytes: &[u8]) -> (lines: Vec<Vec<u8>>)
    ensures
        line_views(lines@) == split_lines(bytes@),
        lines@.len() >= 1,
{
    let mut lines: Vec<Vec<u8>> = Vec::new();
    let mut current: Vec<u8> = Vec::new();
    let mut i: usize = 0;
    while i < bytes.len()
        invariant
            i <= bytes@.len(),
            line_views(lines@).push(current@) == split_lines(bytes@.take(i as int)),
        decreases bytes@.len() - i,
    {
        let ghost before = split_lines(bytes@.take(i as int));
        assert(bytes@.take(i as int) =~= bytes@.take(i + 1).drop_last());
        let b = bytes[i];
        if b == LINE_FEED {
            lines.push(current);
            current = Vec::new();
        } else {
            current.push(b);
            assert(line_views(lines@).push(current@) =~= before.drop_last().push(
                before.last().push(b),
            ));
        }
        i += 1;
    }
    assert(bytes@.take(bytes@.len() as int) =~= bytes@);
    lines.push(current);
    lines
}

/// The lines joined by single line feeds.
pub open spec fn join_lines(lines: Seq<Seq<u8>>) -> Seq<u8>
    decreases lines.len(),
{
    if lines.len() == 0 {
        Seq::<u8>::empty()
    } else if lines.len() == 1 {
        lines[0]
    } else {
        join_lines(lines.drop_last()) + seq![LINE_FEED] + lines.last()
    }
}

/// Every line is free of line feeds.
pub open spec fn single_lines(lines: Seq<Seq<u8>>) -> bool {
    forall|i: int| 0 <= i < lines.len() ==> no_byte(#[trigger] lines[i], LINE_FEED)
}

/// Splitting gives at least one line, none of them holds a line feed, and
/// joining them gives the text back.
pub proof fn lemma_split_lines(s: Seq<u8>)
    ensures
        split_lines(s).len() >= 1,
        single_lines(split_lines(s)),
        join_lines(split_lines(s)) == s,
    decreases s.len(),
{
    if s.len() > 0 {
        let init = s.drop_last();
        let before = split_lines(init);
        lemma_split_lines(init);
        if s.last() == LINE_FEED {
            let after = before.push(Seq::<u8>::empty());
            assert(after.drop_last() =~= before);
            assert forall|i: int| 0 <= i < after.len() implies no_byte(#[trigger] after[i], LINE_FEED) by {}
        } else {
            let grown = before.last().push(s.last());
            let after = before.drop_last().push(grown);
            assert(after.drop_last() =~= before.drop_last());
            if before.len() > 1 {
                assert(join_lines(after) =~= join_lines(before).push(s.last()));
            }
            assert forall|i: int| 0 <= i < after.len() implies no_byte(#[trigger] after[i], LINE_FEED) by {}
        }
    }
}

/// Appending a text that holds no line feed to a text lengthens its last
/// line.
pub proof fn lemma_split_extend(s: Seq<u8>, line: Seq<u8>)
    requires
        no_byte(line, LINE_FEED),
    ensures
        split_lines(s + line) == split_lines(s).drop_last().push(split_lines(s).last() + line),
    decreases line.len(),
{
    lemma_split_lines(s);
    if line.len() > 0 {
        let init = line.drop_last();
        assert((s + line).drop_last() =~= s + init);
        assert forall|i: int| 0 <= i < init.len() implies init[i] != LINE_FEED by {}
        lemma_split_extend(s, init);
        let p = split_lines(s);
        let q = split_lines(s + init);
        assert(q.last().push(line.last()) =~= p.last() + line);
    }
}

/// Joining lines that hold no line feed and splitting the result gives
/// the lines back.
pub proof fn lemma_join_split(lines: Seq<Seq<u8>>)
    requires
        lines.len() >= 1,
        single_lines(lines),
    ensures
        split_lines(join_lines(lines)) == lines,
    decreases lines.len(),
{
    if lines.len() == 1 {
        lemma_split_extend(Seq::<u8>::empty(), lines[0]);
    } else {
        let init = lines.drop_last();
        assert forall|i: int| 0 <= i < init.len() implies no_byte(#[trigger] init[i], LINE_FEED) by {}
        lemma_join_split(init);
        let head = join_lines(init) + seq![LINE_FEED];
        assert(head.drop_last() =~= join_lines(init));
        lemma_split_extend(head, lines.last());
    }
}

/// The decimal digits of `n`, most significant first.
pub open spec fn decimal(n: nat) -> Seq<u8>
    decreases n,
{
    if n < 10 {
        seq![(DIGIT_ZERO + n) as u8]
    } else {
        decimal(n / 10).push((DIGIT_ZERO + n % 10) as u8)
    }
}

/// Appends the decimal digits of `n` to `out`.
pub fn push_decimal(out: &mut Vec<u8>, n: u64)
    ensures
        final(out)@ == old(out)@ + decimal(n as nat),
    decreases n,
{
    if n >= 10 {
        push_decimal(out, n / 10);
    }
    let digit: u8 = DIGIT_ZERO + (n % 10) as u8;
    out.push(digit);
}

} // verus!
