//! The pattern grammar as functions on byte sequences.
//!
//! ```text
//! path             = "/" [ segment-or-param *( "/" segment-or-param ) ]
//! segment-or-param = segment / param
//! segment          = *pchar
//! pchar            = unreserved / pct-encoded / sub-delims / ":" / "@"
//! pct-encoded      = "%" HEXDIG HEXDIG
//! param            = "{" *WSP name *WSP "}"
//! name             = ALPHA *( ALPHA / DIGIT )
//! ```
//!
//! A parameter stands for a whole segment, and the first segment is empty only
//! in the root path `/`.

use vstd::prelude::*;
use crate::class::{
    hex_value, is_alpha, is_alphanumeric, is_blank, is_hex_digit, is_plain_pchar,
    is_sub_delimiter, AT, CLOSE_BRACE, OPEN_BRACE, PERCENT, SLASH,
};
use crate::error::{ParseError, HEX_DIGIT, LETTER, SUB_DELIMITER};
use crate::part::PartView;

verus! {

/// `s[from..to]` is a segment: `pchar`s and nothing else.
pub open spec fn is_segment(s: Seq<u8>, from: int, to: int) -> bool
    decreases to - from,
{
    if from >= to {
        from == to
    } else {
        0 < pchar_len(s, from) <= to - from && is_segment(s, from + pchar_len(s, from), to)
    }
}

/// `s[from..to]` is a parameter whose name is `s[name_start..name_end]`: the
/// name stands in braces, with blanks at will on either side of it.
pub open spec fn is_param_named(
    s: Seq<u8>,
    from: int,
    to: int,
    name_start: int,
    name_end: int,
) -> bool {
    &&& from < name_start < name_end < to
    &&& s[from] == OPEN_BRACE
    &&& s[to - 1] == CLOSE_BRACE
    &&& forall|k: int| from < k < name_start ==> is_blank(#[trigger] s[k])
    &&& is_alpha(s[name_start])
    &&& forall|k: int| name_start < k < name_end ==> is_alphanumeric(#[trigger] s[k])
    &&& forall|k: int| name_end <= k < to - 1 ==> is_blank(#[trigger] s[k])
}

/// `s[from..to]` is a parameter.
pub open spec fn is_param(s: Seq<u8>, from: int, to: int) -> bool {
    exists|name_start: int, name_end: int|
        #[trigger] is_param_named(s, from, to, name_start, name_end)
}

/// Where the first `/` from `i` on stands: at the end of the input if there
/// is none.
pub open spec fn next_slash(s: Seq<u8>, i: int) -> int
    decreases s.len() - i,
{
    if 0 <= i < s.len() && s[i] != SLASH {
        next_slash(s, i + 1)
    } else {
        i
    }
}

/// From `from` on, `s` is segments and parameters with one `/` between each
/// two of them.
pub open spec fn is_items(s: Seq<u8>, from: int) -> bool
    decreases s.len() - from,
{
    let to = next_slash(s, from);
    &&& is_segment(s, from, to) || is_param(s, from, to)
    &&& from <= to < s.len() ==> is_items(s, to + 1)
}

/// `s` is a pattern of the grammar: the root path `/`, or a `/` and then
/// segments and parameters of which the first segment is not empty.
pub open spec fn is_pattern(s: Seq<u8>) -> bool {
    &&& s.len() >= 1
    &&& s[0] == SLASH
    &&& s.len() > 1 ==> s[1] != SLASH && is_items(s, 1)
}

/// Where the run of blanks that starts at `i` ends.
pub open spec fn blank_end(s: Seq<u8>, i: int) -> int
    decreases s.len() - i,
{
    if 0 <= i < s.len() && is_blank(s[i]) {
        blank_end(s, i + 1)
    } else {
        i
    }
}

/// Where the run of letters and digits that starts at `i` ends.
pub open spec fn alphanumeric_end(s: Seq<u8>, i: int) -> int
    decreases s.len() - i,
{
    if 0 <= i < s.len() && is_alphanumeric(s[i]) {
        alphanumeric_end(s, i + 1)
    } else {
        i
    }
}

/// What becomes of taking the byte at `i` where `expected` is wanted.
pub open spec fn exact_at(s: Seq<u8>, i: int, expected: u8) -> Result<u8, ParseError> {
    if !(0 <= i < s.len()) {
        Err(ParseError::EndOfStream { pos: i as usize })
    } else if s[i] != expected {
        Err(ParseError::ExpectedExact { expected, actual: s[i], pos: i as usize })
    } else {
        Ok(expected)
    }
}

/// The number that the hexadecimal digit at `i` stands for, or why there is
/// none.
pub open spec fn hex_digit_at(s: Seq<u8>, i: int) -> Result<u8, ParseError> {
    if !(0 <= i < s.len()) {
        Err(ParseError::EndOfStream { pos: i as usize })
    } else if !is_hex_digit(s[i]) {
        Err(ParseError::Expected { expected: HEX_DIGIT, actual: s[i], pos: i as usize })
    } else {
        Ok(hex_value(s[i]) as u8)
    }
}

/// The sub-delimiter at `i`, or why there is none.
pub open spec fn sub_delimiter_at(s: Seq<u8>, i: int) -> Result<u8, ParseError> {
    if !(0 <= i < s.len()) {
        Err(ParseError::EndOfStream { pos: i as usize })
    } else if !is_sub_delimiter(s[i]) {
        Err(ParseError::Expected { expected: SUB_DELIMITER, actual: s[i], pos: i as usize })
    } else {
        Ok(s[i])
    }
}

/// The byte that the percent-encoded triple at `i` stands for, or the first
/// thing that is wrong with it.
pub open spec fn percent_encoded_at(s: Seq<u8>, i: int) -> Result<u8, ParseError> {
    match exact_at(s, i, PERCENT) {
        Err(e) => Err(e),
        Ok(_) => match hex_digit_at(s, i + 1) {
            Err(e) => Err(e),
            Ok(upper) => match hex_digit_at(s, i + 2) {
                Err(e) => Err(e),
                Ok(lower) => Ok((upper * 16 + lower) as u8),
            },
        },
    }
}

/// The byte that the `pchar` at `i` stands for: itself, or what a
/// percent-encoded triple decodes to. Where no `pchar` starts at `i`, the
/// error is that of the triple if the byte is `%`, and else that of the last
/// alternative, `@`.
pub open spec fn pchar_at(s: Seq<u8>, i: int) -> Result<u8, ParseError> {
    if 0 <= i < s.len() && s[i] == PERCENT {
        percent_encoded_at(s, i)
    } else if 0 <= i < s.len() && is_plain_pchar(s[i]) {
        Ok(s[i])
    } else {
        exact_at(s, i, AT)
    }
}

/// The length of the `pchar` at `i`: 1 for a plain one, 3 for a percent-encoded
/// triple, 0 where there is none.
pub open spec fn pchar_len(s: Seq<u8>, i: int) -> int {
    if !(0 <= i < s.len()) {
        0
    } else if is_plain_pchar(s[i]) {
        1
    } else if percent_encoded_at(s, i) is Ok {
        3
    } else {
        0
    }
}

/// Where the segment that starts at `i` ends: at the first position from
/// which no `pchar` starts.
pub open spec fn segment_end(s: Seq<u8>, i: int) -> int
    decreases s.len() - i,
{
    if pchar_len(s, i) > 0 {
        segment_end(s, i + pchar_len(s, i))
    } else {
        i
    }
}

/// Where a parameter lies: its name in `name_start..name_end`, and `end` just
/// behind its closing brace.
pub struct ParamSpan {
    pub name_start: int,
    pub name_end: int,
    pub end: int,
}

/// Where the parameter name that starts at `i` ends, or why none starts
/// there.
pub open spec fn name_at(s: Seq<u8>, i: int) -> Result<int, ParseError> {
    if !(0 <= i < s.len()) {
        Err(ParseError::EndOfStream { pos: i as usize })
    } else if !is_alpha(s[i]) {
        Err(ParseError::Expected { expected: LETTER, actual: s[i], pos: i as usize })
    } else {
        Ok(alphanumeric_end(s, i + 1))
    }
}

/// The parameter whose opening brace is the byte before `i`, or the first
/// thing that is wrong with it.
pub open spec fn param_at(s: Seq<u8>, i: int) -> Result<ParamSpan, ParseError> {
    let name_start = blank_end(s, i);
    match name_at(s, name_start) {
        Err(e) => Err(e),
        Ok(name_end) => {
            let close = blank_end(s, name_end);
            match exact_at(s, close, CLOSE_BRACE) {
                Err(e) => Err(e),
                Ok(_) => Ok(ParamSpan { name_start, name_end, end: close + 1 }),
            }
        },
    }
}

/// What is wrong with the byte at `i`, where a segment or a parameter has
/// ended and the input goes on with something else than `/`: a broken
/// percent-encoded triple is reported as such.
pub open spec fn stray_byte(s: Seq<u8>, i: int) -> ParseError {
    match percent_encoded_at(s, i) {
        Err(ParseError::Expected { expected, actual, pos }) => ParseError::Expected {
            expected,
            actual,
            pos,
        },
        Err(ParseError::EndOfStream { pos }) => ParseError::EndOfStream { pos },
        _ => ParseError::ExpectedExact { expected: SLASH, actual: s[i], pos: i as usize },
    }
}

/// The literal that is still open at the end of the input, if any.
pub open spec fn tail(s: Seq<u8>, anchor: int, cursor: int) -> Seq<PartView> {
    if anchor < cursor {
        seq![PartView::Literal(s.subrange(anchor, cursor))]
    } else {
        seq![]
    }
}

/// `parts` with `more` behind them, where there is no error.
pub open spec fn followed_by<E>(parts: Seq<PartView>, more: Result<Seq<PartView>, E>) -> Result<
    Seq<PartView>,
    E,
> {
    match more {
        Ok(rest) => Ok(parts + rest),
        Err(e) => Err(e),
    }
}

/// The parts of the segments from `cursor` on, each with the `/` before it,
/// where the bytes from `anchor` up to `cursor` belong to a literal that is
/// still open.
pub open spec fn segments_from(s: Seq<u8>, anchor: int, cursor: int) -> Result<
    Seq<PartView>,
    ParseError,
>
    decreases s.len() - cursor,
{
    if !(0 <= cursor < s.len()) {
        Ok(tail(s, anchor, cursor))
    } else if s[cursor] != SLASH {
        Err(stray_byte(s, cursor))
    } else if cursor + 1 < s.len() && s[cursor + 1] == OPEN_BRACE {
        match param_at(s, cursor + 2) {
            Err(e) => Err(e),
            Ok(span) => {
                proof {
                    lemma_param_at_bounds(s, cursor + 2);
                }
                followed_by(
                    seq![
                        PartView::Literal(s.subrange(anchor, cursor + 1)),
                        PartView::Param { name: s.subrange(span.name_start, span.name_end) },
                    ],
                    segments_from(s, span.end, span.end),
                )
            },
        }
    } else {
        proof {
            lemma_segment_end_bounds(s, cursor + 1);
        }
        segments_from(s, anchor, segment_end(s, cursor + 1))
    }
}

/// What a parser that stands at `cursor`, with an open literal from `anchor`,
/// makes of the rest of the input as an absolute path.
pub open spec fn parse_from(s: Seq<u8>, anchor: int, cursor: int) -> Result<
    Seq<PartView>,
    ParseError,
> {
    if !(0 <= cursor < s.len()) || s[cursor] != SLASH {
        Err(ParseError::IsNotAbsolute)
    } else if cursor + 1 < s.len() && s[cursor + 1] == SLASH {
        Err(ParseError::IsNotAbsolute)
    } else if cursor + 1 == s.len() && anchor == cursor {
        Ok(seq![])
    } else {
        segments_from(s, anchor, cursor)
    }
}

/// The parts of the pattern `s`, or the first violation of the grammar in it.
pub open spec fn parse(s: Seq<u8>) -> Result<Seq<PartView>, ParseError> {
    parse_from(s, 0, 0)
}

/// A run never ends before it starts, nor behind the input.
pub proof fn lemma_blank_end_bounds(s: Seq<u8>, i: int)
    requires
        0 <= i <= s.len(),
    ensures
        i <= blank_end(s, i) <= s.len(),
        forall|j: int| i <= j < blank_end(s, i) ==> is_blank(#[trigger] s[j]),
        blank_end(s, i) < s.len() ==> !is_blank(s[blank_end(s, i)]),
    decreases s.len() - i,
{
    if i < s.len() && is_blank(s[i]) {
        lemma_blank_end_bounds(s, i + 1);
    }
}

/// A run never ends before it starts, nor behind the input.
pub proof fn lemma_alphanumeric_end_bounds(s: Seq<u8>, i: int)
    requires
        0 <= i <= s.len(),
    ensures
        i <= alphanumeric_end(s, i) <= s.len(),
        forall|j: int| i <= j < alphanumeric_end(s, i) ==> is_alphanumeric(#[trigger] s[j]),
        alphanumeric_end(s, i) < s.len() ==> !is_alphanumeric(s[alphanumeric_end(s, i)]),
    decreases s.len() - i,
{
    if i < s.len() && is_alphanumeric(s[i]) {
        lemma_alphanumeric_end_bounds(s, i + 1);
    }
}

/// A run of letters and digits from `i` that stops at `j`, at the end of the
/// input or before another byte, is the run that starts at `i`.
pub proof fn lemma_alphanumeric_end_unique(s: Seq<u8>, i: int, j: int)
    requires
        0 <= i <= j <= s.len(),
        forall|k: int| i <= k < j ==> is_alphanumeric(#[trigger] s[k]),
        j < s.len() ==> !is_alphanumeric(s[j]),
    ensures
        alphanumeric_end(s, i) == j,
    decreases j - i,
{
    if i < j {
        lemma_alphanumeric_end_unique(s, i + 1, j);
    }
}

/// A segment never ends before it starts, nor behind the input, and no
/// `pchar` starts where it ends.
pub proof fn lemma_segment_end_bounds(s: Seq<u8>, i: int)
    requires
        0 <= i <= s.len(),
    ensures
        i <= segment_end(s, i) <= s.len(),
        pchar_len(s, segment_end(s, i)) == 0,
    decreases s.len() - i,
{
    if pchar_len(s, i) > 0 {
        lemma_segment_end_bounds(s, i + pchar_len(s, i));
    }
}

/// Every byte of a segment is a plain `pchar` or a `%`: so it is ASCII, and
/// neither a blank, a `/` nor a brace.
pub proof fn lemma_segment_bytes(s: Seq<u8>, i: int)
    requires
        0 <= i <= s.len(),
    ensures
        forall|j: int|
            i <= j < segment_end(s, i) ==> is_plain_pchar(#[trigger] s[j]) || s[j] == PERCENT,
    decreases s.len() - i,
{
    if pchar_len(s, i) > 0 {
        lemma_segment_bytes(s, i + pchar_len(s, i));
    }
}

/// A parameter ends behind the brace that opens it, and within the input.
pub proof fn lemma_param_at_bounds(s: Seq<u8>, i: int)
    requires
        0 <= i <= s.len(),
        param_at(s, i) is Ok,
    ensures
        ({
            let span = param_at(s, i)->Ok_0;
            i <= span.name_start < span.name_end < span.end <= s.len()
        }),
{
    lemma_blank_end_bounds(s, i);
    let name_start = blank_end(s, i);
    lemma_alphanumeric_end_bounds(s, name_start + 1);
    lemma_blank_end_bounds(s, alphanumeric_end(s, name_start + 1));
}

} // verus!
