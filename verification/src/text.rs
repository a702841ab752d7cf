//! Byte-level building blocks of the line-oriented input formats: comment
//! lines, space-separated tokens and decimal numbers.

use vstd::prelude::*;

verus! {

/// The byte that separates tokens.
pub const SPACE: u8 = 32;

/// The byte that opens a comment line.
pub const HASH: u8 = 35;

pub const PLUS: u8 = 43;

pub const MINUS: u8 = 45;

pub const DIGIT_ZERO: u8 = 48;

pub const DIGIT_NINE: u8 = 57;

/// A comment line starts with `#`.
pub open spec fn is_comment(line: Seq<u8>) -> bool {
    line.len() > 0 && line[0] == HASH
}

/// The pieces of `s` from `start` on, given that no separator lies in
/// `start..pos`: a piece ends at each space and at the end of the text.
pub open spec fn split_from(s: Seq<u8>, pos: int, start: int) -> Seq<Seq<u8>>
    decreases s.len() - pos,
{
    if pos >= s.len() {
        seq![s.subrange(start, s.len() as int)]
    } else if s[pos] == SPACE {
        seq![s.subrange(start, pos)] + split_from(s, pos + 1, pos + 1)
    } else {
        split_from(s, pos + 1, start)
    }
}

/// The tokens of a line: the pieces between single spaces. A line without a
/// space is one token; two adjacent spaces enclose an empty token.
pub open spec fn split(s: Seq<u8>) -> Seq<Seq<u8>> {
    split_from(s, 0, 0)
}

/// The text that a token range covers.
pub open spec fn range_text(s: Seq<u8>, range: (usize, usize)) -> Seq<u8> {
    s.subrange(range.0 as int, range.1 as int)
}

/// The texts of a sequence of token ranges.
pub open spec fn ranges_text(s: Seq<u8>, ranges: Seq<(usize, usize)>) -> Seq<Seq<u8>> {
    Seq::new(ranges.len(), |i: int| range_text(s, ranges[i]))
}

/// Every range lies within a text of the given length.
pub open spec fn ranges_within(ranges: Seq<(usize, usize)>, len: nat) -> bool {
    forall|i: int| 0 <= i < ranges.len() ==> (#[trigger] ranges[i]).0 <= ranges[i].1 <= len
}

/// The first range starts the text, and each further range starts one
/// behind the end of the range before it.
pub open spec fn ranges_adjacent(ranges: Seq<(usize, usize)>) -> bool {
    &&& ranges.len() > 0 ==> ranges[0].0 == 0
    &&& forall|i: int|
        0 <= i < ranges.len() - 1 ==> (#[trigger] ranges[i + 1]).0 == ranges[i].1 + 1
}

pub open spec fn is_digit(b: u8) -> bool {
    DIGIT_ZERO <= b <= DIGIT_NINE
}

pub open spec fn digit_value(b: u8) -> nat {
    if b >= DIGIT_ZERO {
        (b - DIGIT_ZERO) as nat
    } else {
        0
    }
}

/// A non-empty run of decimal digits.
pub open spec fn digits_only(s: Seq<u8>) -> bool {
    s.len() > 0 && forall|i: int| 0 <= i < s.len() ==> is_digit(#[trigger] s[i])
}

/// The number that a run of decimal digits denotes.
pub open spec fn decimal_value(s: Seq<u8>) -> nat
    decreases s.len(),
{
    if s.len() == 0 {
        0
    } else {
        decimal_value(s.drop_last()) * 10 + digit_value(s.last())
    }
}

/// The value of a digit run that does not exceed `limit`.
pub open spec fn bounded_decimal(s: Seq<u8>, limit: nat) -> Option<usize> {
    if digits_only(s) && decimal_value(s) <= limit && limit <= usize::MAX {
        Some(decimal_value(s) as usize)
    } else {
        None
    }
}

/// The text of a number behind an optional sign byte.
pub open spec fn behind_sign(s: Seq<u8>, sign: u8) -> Seq<u8> {
    if s.len() > 0 && s[0] == sign {
        s.subrange(1, s.len() as int)
    } else {
        s
    }
}

/// An unsigned number: digits behind an optional `+`, at most `usize::MAX`.
pub open spec fn parse_unsigned(s: Seq<u8>) -> Option<usize> {
    bounded_decimal(behind_sign(s, PLUS), usize::MAX as nat)
}

/// A token starts with `-`.
pub open spec fn has_minus(s: Seq<u8>) -> bool {
    s.len() > 0 && s[0] == MINUS
}

/// A signed number: digits behind an optional `+` or `-`, of a magnitude of
/// at most `isize::MAX`. The result is the magnitude and whether the number
/// is above zero.
pub open spec fn parse_signed(s: Seq<u8>) -> Option<(usize, bool)> {
    let body = if has_minus(s) {
        s.subrange(1, s.len() as int)
    } else {
        behind_sign(s, PLUS)
    };
    match bounded_decimal(body, isize::MAX as nat) {
        Some(magnitude) => Some((magnitude, !has_minus(s) && magnitude > 0)),
        None => None,
    }
}

pub proof fn lemma_decimal_value_prefix(s: Seq<u8>, k: int)
    requires
        0 <= k <= s.len(),
    ensures
        decimal_value(s.subrange(0, k)) <= decimal_value(s),
    decreases s.len(),
{
    if k == s.len() {
        assert(s.subrange(0, k) =~= s);
    } else {
        lemma_decimal_value_prefix(s.drop_last(), k);
        assert(s.drop_last().subrange(0, k) =~= s.subrange(0, k));
    }
}

/// Tells whether a line is a comment.
pub fn is_comment_line(line: &Vec<u8>) -> (comment: bool)
    ensures
        comment == is_comment(line@),
{
    line.len() > 0 && line[0] == HASH
}

/// Splits a line at its spaces and returns the range of each token.
pub fn split_line(line: &Vec<u8>) -> (tokens: Vec<(usize, usize)>)
    ensures
        ranges_within(tokens@, line@.len()),
        ranges_adjacent(tokens@),
        ranges_text(line@, tokens@) == split(line@),
        tokens@.len() == split(line@).len(),
        tokens@.len() >= 1,
{
    let mut tokens: Vec<(usize, usize)> = Vec::new();
    let mut start: usize = 0;
    let mut pos: usize = 0;
    while pos < line.len()
        invariant
            start <= pos <= line.len(),
            ranges_within(tokens@, line@.len()),
            ranges_adjacent(tokens@),
            tokens@.len() == 0 ==> start == 0,
            tokens@.len() > 0 ==> start == tokens@.last().1 + 1,
            split(line@) == ranges_text(line@, tokens@) + split_from(
                line@,
                pos as int,
                start as int,
            ),
        decreases line.len() - pos,
    {
        if line[pos] == SPACE {
            let ghost before = tokens@;
            tokens.push((start, pos));
            proof {
                let piece = seq![line@.subrange(start as int, pos as int)];
                let rest = split_from(line@, pos + 1, pos + 1);
                assert(ranges_text(line@, tokens@) =~= ranges_text(line@, before) + piece);
                assert(ranges_text(line@, before) + (piece + rest) =~= (ranges_text(line@, before)
                    + piece) + rest);
            }
            start = pos + 1;
        }
        pos += 1;
    }
    let ghost before = tokens@;
    tokens.push((start, pos));
    proof {
        let piece = seq![line@.subrange(start as int, line@.len() as int)];
        assert(ranges_text(line@, tokens@) =~= ranges_text(line@, before) + piece);
    }
    tokens
}

/// Reads the digit run in `line[start..end]` as a number of at most `limit`.
pub fn read_decimal(line: &Vec<u8>, start: usize, end: usize, limit: usize) -> (value: Option<
    usize,
>)
    requires
        start <= end <= line@.len(),
    ensures
        value == bounded_decimal(line@.subrange(start as int, end as int), limit as nat),
{
    let ghost text = line@.subrange(start as int, end as int);
    if start == end {
        return None;
    }
    let mut value: usize = 0;
    let mut pos: usize = start;
    while pos < end
        invariant
            start <= pos <= end <= line@.len(),
            text == line@.subrange(start as int, end as int),
            forall|i: int| 0 <= i < pos - start ==> is_digit(#[trigger] text[i]),
            value == decimal_value(text.subrange(0, pos - start)),
            value <= limit,
        decreases end - pos,
    {
        let byte = line[pos];
        if byte < DIGIT_ZERO || byte > DIGIT_NINE {
            assert(!is_digit(text[pos - start]));
            return None;
        }
        let digit: usize = (byte - DIGIT_ZERO) as usize;
        proof {
            assert(text.subrange(0, pos - start + 1).drop_last() =~= text.subrange(
                0,
                pos - start,
            ));
            assert(text.subrange(0, pos - start + 1).last() == byte);
            lemma_decimal_value_prefix(text, pos - start + 1);
        }
        if digit > limit || value > (limit - digit) / 10 {
            return None;
        }
        value = value * 10 + digit;
        pos += 1;
    }
    proof {
        assert(text.subrange(0, end - start) =~= text);
    }
    Some(value)
}

/// Reads the token `line[start..end]` as an unsigned number.
pub fn read_unsigned(line: &Vec<u8>, start: usize, end: usize) -> (value: Option<usize>)
    requires
        start <= end <= line@.len(),
    ensures
        value == parse_unsigned(line@.subrange(start as int, end as int)),
{
    let ghost text = line@.subrange(start as int, end as int);
    if start < end && line[start] == PLUS {
        assert(text.subrange(1, text.len() as int) =~= line@.subrange(start + 1, end as int));
        read_decimal(line, start + 1, end, usize::MAX)
    } else {
        read_decimal(line, start, end, usize::MAX)
    }
}

/// Reads the token `line[start..end]` as a signed number and returns its
/// magnitude and whether it is above zero.
pub fn read_signed(line: &Vec<u8>, start: usize, end: usize) -> (value: Option<(usize, bool)>)
    requires
        start <= end <= line@.len(),
    ensures
        value == parse_signed(line@.subrange(start as int, end as int)),
{
    let ghost text = line@.subrange(start as int, end as int);
    let negative = start < end && line[start] == MINUS;
    let signed = start < end && (line[start] == MINUS || line[start] == PLUS);
    let from: usize = if signed {
        start + 1
    } else {
        start
    };
    proof {
        if signed {
            assert(text.subrange(1, text.len() as int) =~= line@.subrange(start + 1, end as int));
        }
    }
    match read_decimal(line, from, end, isize::MAX as usize) {
        Some(magnitude) => Some((magnitude, !negative && magnitude > 0)),
        None => None,
    }
}

/// Tells whether the token `line[start..end]` is the single digit `0`.
pub fn is_zero_token(line: &Vec<u8>, start: usize, end: usize) -> (zero: bool)
    requires
        start <= end <= line@.len(),
    ensures
        zero == (line@.subrange(start as int, end as int) == seq![DIGIT_ZERO]),
{
    let ghost text = line@.subrange(start as int, end as int);
    if end - start == 1 && line[start] == DIGIT_ZERO {
        assert(text =~= seq![DIGIT_ZERO]);
        true
    } else {
        assert(text.len() != 1 || text[0] != DIGIT_ZERO);
        assert(seq![DIGIT_ZERO].len() == 1 && seq![DIGIT_ZERO][0] == DIGIT_ZERO);
        false
    }
}

} // verus!
