//! A cursor over the bytes of a pattern or a path.

use vstd::prelude::*;
use vstd::slice::slice_to_vec;
use vstd::utf8::encode_utf8;
use crate::class::{
    alpha, alphanumeric, blank, hex_digit_value, is_unreserved, sub_delimiter, unreserved, AT,
    CLOSE_BRACE, COLON, OPEN_BRACE, PERCENT, SLASH,
};
use crate::error::{ParseError, HEX_DIGIT, LETTER, SUB_DELIMITER};
use crate::grammar::{
    blank_end, exact_at, followed_by, hex_digit_at, lemma_alphanumeric_end_unique,
    lemma_blank_end_bounds, lemma_segment_end_bounds, name_at, parse_from, pchar_at,
    pchar_len, percent_encoded_at, segment_end, segments_from, sub_delimiter_at, tail,
};
use crate::part::{views, Part, PartView};
use crate::text::ascii_string;

verus! {

/// A position in a byte buffer, with the start of the literal that is being
/// read. A step that fails leaves the position where it was; only `parse`
/// gives no account of the position at which it gave up.
pub struct Parser<'b> {
    /// Route path to parse.
    bytes: &'b [u8],
    /// Start position of the current literal.
    anchor: usize,
    /// Current parse position.
    cursor: usize,
}

impl<'b> Parser<'b> {
    #[verifier::type_invariant]
    spec fn well_formed(&self) -> bool {
        self.anchor <= self.cursor <= self.bytes@.len()
    }

    /// The bytes that are being read.
    pub closed spec fn input(&self) -> Seq<u8> {
        self.bytes@
    }

    /// The current position.
    pub closed spec fn spec_cursor(&self) -> usize {
        self.cursor
    }

    /// Where the literal that is being read starts.
    pub closed spec fn anchor(&self) -> usize {
        self.anchor
    }

    /// This parser is `before` with the cursor moved to `cursor`.
    pub open spec fn at(&self, before: Self, cursor: int) -> bool {
        &&& self.input() == before.input()
        &&& self.anchor() == before.anchor()
        &&& self.cursor() == cursor
    }

    /// Creates a parser at the start of `bytes`.
    pub fn new(bytes: &'b [u8]) -> (parser: Self)
        ensures
            parser.input() == bytes@,
            parser.cursor() == 0,
            parser.anchor() == 0,
    {
        Self { bytes, anchor: 0, cursor: 0 }
    }

    /// The current position, as an offset into the input.
    #[verifier::when_used_as_spec(spec_cursor)]
    pub fn cursor(&self) -> (pos: usize)
        ensures
            pos == self.cursor(),
            self.anchor() <= pos <= self.input().len(),
    {
        proof {
            use_type_invariant(self);
        }
        self.cursor
    }

    /// The byte at the cursor, where the input has not ended.
    pub fn peek(&self) -> (next: Option<u8>)
        ensures
            next == (if self.cursor() < self.input().len() {
                Some(self.input()[self.cursor() as int])
            } else {
                None
            }),
    {
        proof {
            use_type_invariant(self);
        }
        if self.cursor < self.bytes.len() {
            Some(self.bytes[self.cursor])
        } else {
            None
        }
    }

    /// Takes the byte at the cursor, whatever it is.
    pub fn any(&mut self) -> (taken: Result<u8, ParseError>)
        ensures
            final(self).input() == old(self).input(),
            final(self).anchor() == old(self).anchor(),
            old(self).cursor() < old(self).input().len() ==> taken == Ok::<u8, ParseError>(
                old(self).input()[old(self).cursor() as int],
            ) && final(self).cursor() == old(self).cursor() + 1,
            old(self).cursor() >= old(self).input().len() ==> taken == Err::<u8, ParseError>(
                ParseError::EndOfStream { pos: old(self).cursor() },
            ) && final(self).cursor() == old(self).cursor(),
    {
        proof {
            use_type_invariant(&*self);
        }
        if self.cursor < self.bytes.len() {
            let x = self.bytes[self.cursor];
            self.cursor += 1;
            Ok(x)
        } else {
            Err(ParseError::EndOfStream { pos: self.cursor })
        }
    }

    /// Takes the byte at the cursor if it is `expected`.
    pub fn consume(&mut self, expected: u8) -> (taken: Result<u8, ParseError>)
        ensures
            taken == exact_at(old(self).input(), old(self).cursor() as int, expected),
            final(self).at(
                *old(self),
                if taken is Ok {
                    old(self).cursor() + 1
                } else {
                    old(self).cursor() as int
                },
            ),
    {
        match self.peek() {
            Some(x) => {
                if x == expected {
                    let _ = self.any();
                    Ok(x)
                } else {
                    Err(ParseError::ExpectedExact { expected, actual: x, pos: self.cursor })
                }
            },
            None => Err(ParseError::EndOfStream { pos: self.cursor }),
        }
    }

    /// The error for a byte `actual` at the cursor where `what` was wanted.
    pub fn expected(&self, what: &'static str, actual: u8) -> (error: ParseError)
        ensures
            error == (ParseError::Expected { expected: what, actual, pos: self.cursor() }),
    {
        ParseError::Expected { expected: what, actual, pos: self.cursor }
    }

    /// Moves the cursor over the bytes that `predicate` accepts, up to the
    /// first one that it refuses.
    pub fn skip_while<P>(&mut self, predicate: P) where P: Fn(u8) -> bool
        requires
            forall|x: u8| call_requires(predicate, (x,)),
        ensures
            final(self).at(*old(self), final(self).cursor() as int),
            old(self).cursor() <= final(self).cursor() <= old(self).input().len(),
            forall|i: int|
                old(self).cursor() <= i < final(self).cursor() ==> call_ensures(
                    predicate,
                    (#[trigger] old(self).input()[i],),
                    true,
                ),
            final(self).cursor() < old(self).input().len() ==> call_ensures(
                predicate,
                (old(self).input()[final(self).cursor() as int],),
                false,
            ),
    {
        proof {
            use_type_invariant(&*self);
        }
        while self.cursor < self.bytes.len()
            invariant
                self.at(*old(self), self.cursor() as int),
                old(self).cursor() <= self.cursor <= self.bytes@.len(),
                self.anchor <= self.cursor,
                forall|x: u8| call_requires(predicate, (x,)),
                forall|i: int|
                    old(self).cursor() <= i < self.cursor ==> call_ensures(
                        predicate,
                        (#[trigger] self.bytes@[i],),
                        true,
                    ),
            ensures
                self.cursor < self.bytes@.len() ==> call_ensures(
                    predicate,
                    (self.bytes@[self.cursor as int],),
                    false,
                ),
            decreases self.bytes@.len() - self.cursor,
        {
            if !predicate(self.bytes[self.cursor]) {
                break ;
            }
            self.cursor += 1;
        }
    }

    /// Moves the cursor over blanks.
    pub fn ws(&mut self)
        ensures
            final(self).at(
                *old(self),
                blank_end(old(self).input(), old(self).cursor() as int),
            ),
            old(self).cursor() <= final(self).cursor() <= old(self).input().len(),
    {
        proof {
            use_type_invariant(&*self);
            lemma_blank_end_bounds(self.input(), self.cursor() as int);
        }
        while self.cursor < self.bytes.len() && blank(self.bytes[self.cursor])
            invariant
                self.at(*old(self), self.cursor() as int),
                self.anchor <= self.cursor <= self.bytes@.len(),
                blank_end(self.bytes@, self.cursor as int) == blank_end(
                    old(self).input(),
                    old(self).cursor() as int,
                ),
            decreases self.bytes@.len() - self.cursor,
        {
            self.cursor += 1;
        }
    }

    /// The bytes from `start` up to the cursor.
    pub fn capture(&self, start: usize) -> (taken: &'b [u8])
        requires
            start <= self.cursor(),
        ensures
            taken@ == self.input().subrange(start as int, self.cursor() as int),
    {
        proof {
            use_type_invariant(self);
        }
        vstd::slice::slice_subrange(self.bytes, start, self.cursor)
    }

    /// Takes a hexadecimal digit and gives the number that it stands for.
    pub fn hex_digit(&mut self) -> (taken: Result<u8, ParseError>)
        ensures
            taken == hex_digit_at(old(self).input(), old(self).cursor() as int),
            final(self).at(
                *old(self),
                if taken is Ok {
                    old(self).cursor() + 1
                } else {
                    old(self).cursor() as int
                },
            ),
    {
        match self.peek() {
            None => Err(ParseError::EndOfStream { pos: self.cursor }),
            Some(x) => match hex_digit_value(x) {
                Some(value) => {
                    let _ = self.any();
                    Ok(value)
                },
                None => Err(self.expected(HEX_DIGIT, x)),
            },
        }
    }

    /// Takes a percent-encoded triple and gives the byte that it stands for.
    pub fn percent_encoded(&mut self) -> (taken: Result<u8, ParseError>)
        ensures
            taken == percent_encoded_at(old(self).input(), old(self).cursor() as int),
            final(self).at(
                *old(self),
                if taken is Ok {
                    old(self).cursor() + 3
                } else {
                    old(self).cursor() as int
                },
            ),
    {
        proof {
            use_type_invariant(&*self);
        }
        let start = self.cursor;
        if let Err(e) = self.consume(PERCENT) {
            return Err(e);
        }
        let upper = match self.hex_digit() {
            Ok(upper) => upper,
            Err(e) => {
                self.cursor = start;
                return Err(e);
            },
        };
        let lower = match self.hex_digit() {
            Ok(lower) => lower,
            Err(e) => {
                self.cursor = start;
                return Err(e);
            },
        };
        assert((upper << 4) | lower == upper * 16 + lower) by (bit_vector)
            requires
                upper < 16,
                lower < 16,
        ;
        Ok((upper << 4) | lower)
    }

    /// Takes an unreserved byte.
    pub fn unreserved(&mut self) -> (taken: Option<u8>)
        ensures
            taken == (if old(self).cursor() < old(self).input().len() && is_unreserved(
                old(self).input()[old(self).cursor() as int],
            ) {
                Some(old(self).input()[old(self).cursor() as int])
            } else {
                None
            }),
            final(self).at(
                *old(self),
                if taken is Some {
                    old(self).cursor() + 1
                } else {
                    old(self).cursor() as int
                },
            ),
    {
        match self.peek() {
            Some(x) => {
                if unreserved(x) {
                    let _ = self.any();
                    Some(x)
                } else {
                    None
                }
            },
            None => None,
        }
    }

    /// Takes a sub-delimiter.
    pub fn sub_delimiter(&mut self) -> (taken: Result<u8, ParseError>)
        ensures
            taken == sub_delimiter_at(old(self).input(), old(self).cursor() as int),
            final(self).at(
                *old(self),
                if taken is Ok {
                    old(self).cursor() + 1
                } else {
                    old(self).cursor() as int
                },
            ),
    {
        match self.peek() {
            None => Err(ParseError::EndOfStream { pos: self.cursor }),
            Some(x) => {
                if sub_delimiter(x) {
                    let _ = self.any();
                    Ok(x)
                } else {
                    Err(self.expected(SUB_DELIMITER, x))
                }
            },
        }
    }

    /// Takes a `pchar` and gives the byte that it stands for.
    pub fn pchar(&mut self) -> (taken: Result<u8, ParseError>)
        ensures
            taken == pchar_at(old(self).input(), old(self).cursor() as int),
            taken is Ok <==> pchar_len(old(self).input(), old(self).cursor() as int) > 0,
            final(self).at(
                *old(self),
                old(self).cursor() + pchar_len(old(self).input(), old(self).cursor() as int),
            ),
    {
        if let Some(x) = self.unreserved() {
            return Ok(x);
        }
        match self.peek() {
            Some(x) if x == PERCENT => self.percent_encoded(),
            _ => match self.sub_delimiter() {
                Ok(x) => Ok(x),
                Err(_) => match self.consume(COLON) {
                    Ok(x) => Ok(x),
                    Err(_) => self.consume(AT),
                },
            },
        }
    }

    /// Takes a segment: `pchar`s up to the first byte from which none starts,
    /// which is left where it is.
    pub fn segment(&mut self) -> (taken: &'b [u8])
        ensures
            final(self).at(
                *old(self),
                segment_end(old(self).input(), old(self).cursor() as int),
            ),
            taken@ == old(self).input().subrange(
                old(self).cursor() as int,
                final(self).cursor() as int,
            ),
            old(self).cursor() <= final(self).cursor() <= old(self).input().len(),
    {
        proof {
            use_type_invariant(&*self);
        }
        let start = self.cursor;
        loop
            invariant
                self.at(*old(self), self.cursor() as int),
                start == old(self).cursor(),
                start <= self.cursor() <= self.input().len(),
                segment_end(self.input(), self.cursor() as int) == segment_end(
                    old(self).input(),
                    old(self).cursor() as int,
                ),
            ensures
                self.at(
                    *old(self),
                    segment_end(old(self).input(), old(self).cursor() as int),
                ),
                start <= self.cursor() <= self.input().len(),
            decreases self.input().len() - self.cursor(),
        {
            proof {
                use_type_invariant(&*self);
            }
            if self.pchar().is_err() {
                break ;
            }
        }
        self.capture(start)
    }

    /// Takes the name of a parameter: a letter, then letters and digits.
    pub fn parameter_name(&mut self) -> (name: Result<String, ParseError>)
        ensures
            match name_at(old(self).input(), old(self).cursor() as int) {
                Ok(end) => {
                    &&& name matches Ok(text)
                    &&& encode_utf8(text@) == old(self).input().subrange(
                        old(self).cursor() as int,
                        end,
                    )
                    &&& final(self).at(*old(self), end)
                    &&& old(self).cursor() < end <= old(self).input().len()
                },
                Err(e) => {
                    &&& name == Err::<String, ParseError>(e)
                    &&& final(self).at(*old(self), old(self).cursor() as int)
                },
            },
    {
        let start = self.cursor;
        match self.peek() {
            None => {
                return Err(ParseError::EndOfStream { pos: self.cursor });
            },
            Some(x) => {
                if !alpha(x) {
                    return Err(self.expected(LETTER, x));
                }
            },
        }
        let _ = self.any();
        self.skip_while(alphanumeric);
        proof {
            lemma_alphanumeric_end_unique(self.input(), start + 1, self.cursor() as int);
        }
        let bytes = self.capture(start);
        Ok(ascii_string(bytes))
    }

    /// Parses the rest of the input as a route pattern: an absolute path
    /// whose segments may be parameters in braces. The bytes from the anchor
    /// up to the cursor go into the first literal.
    pub fn parse(&mut self) -> (parts: Result<Vec<Part>, ParseError>)
        ensures
            final(self).input() == old(self).input(),
            match parse_from(
                old(self).input(),
                old(self).anchor() as int,
                old(self).cursor() as int,
            ) {
                Ok(expected) => {
                    &&& parts matches Ok(found)
                    &&& views(found@) == expected
                    &&& final(self).cursor() == old(self).input().len()
                },
                Err(e) => parts == Err::<Vec<Part>, ParseError>(e),
            },
    {
        proof {
            use_type_invariant(&*self);
        }
        let ghost s = self.input();
        let ghost whole = segments_from(s, self.anchor() as int, self.cursor() as int);
        if self.consume(SLASH).is_err() {
            return Err(ParseError::IsNotAbsolute);
        }
        // The first segment is empty only in the root path.
        if self.consume(SLASH).is_ok() {
            return Err(ParseError::IsNotAbsolute);
        }
        let mut parts: Vec<Part> = Vec::new();
        if self.peek().is_none() && self.anchor + 1 == self.cursor {
            return Ok(parts);
        }
        loop
            invariant_except_break
                0 < self.cursor() <= s.len(),
                self.anchor() < self.cursor(),
                s[self.cursor() - 1] == SLASH,
                whole == followed_by(
                    views(parts@),
                    segments_from(s, self.anchor() as int, self.cursor() - 1),
                ),
            invariant
                self.input() == s,
                s == old(self).input(),
                whole == parse_from(s, old(self).anchor() as int, old(self).cursor() as int),
            ensures
                self.cursor() == s.len(),
                self.anchor() <= self.cursor(),
                whole == Ok::<Seq<PartView>, ParseError>(
                    views(parts@) + tail(s, self.anchor() as int, self.cursor() as int),
                ),
            decreases s.len() - self.cursor(),
        {
            let ghost slash = self.cursor() - 1;
            let ghost before = views(parts@);
            match self.peek() {
                Some(x) if x == OPEN_BRACE => {
                    let literal = slice_to_vec(self.capture(self.anchor));
                    let ghost literal_view = PartView::Literal(literal@);
                    parts.push(Part::Literal(literal));
                    let _ = self.any();
                    self.ws();
                    proof {
                        lemma_blank_end_bounds(s, slash + 2);
                    }
                    let name = match self.parameter_name() {
                        Ok(name) => name,
                        Err(e) => {
                            return Err(e);
                        },
                    };
                    let ghost name_view = PartView::Param { name: encode_utf8(name@) };
                    self.ws();
                    if let Err(e) = self.consume(CLOSE_BRACE) {
                        return Err(e);
                    }
                    proof {
                        use_type_invariant(&*self);
                    }
                    self.anchor = self.cursor;
                    parts.push(Part::Param { name });
                    proof {
                        let rest = segments_from(s, self.cursor() as int, self.cursor() as int);
                        assert(views(parts@) =~= before + seq![literal_view, name_view]);
                        if let Ok(more) = rest {
                            assert(before + (seq![literal_view, name_view] + more) =~= (before
                                + seq![literal_view, name_view]) + more);
                        }
                    }
                },
                _ => {
                    let _ = self.segment();
                    proof {
                        lemma_segment_end_bounds(s, slash + 1);
                    }
                },
            }
            assert(whole == followed_by(
                views(parts@),
                segments_from(s, self.anchor() as int, self.cursor() as int),
            ));
            match self.consume(SLASH) {
                Ok(_) => {},
                Err(ParseError::EndOfStream { .. }) => {
                    break ;
                },
                Err(e) => {
                    return match self.percent_encoded() {
                        Err(ParseError::Expected { expected, actual, pos }) => Err(
                            ParseError::Expected { expected, actual, pos },
                        ),
                        Err(ParseError::EndOfStream { pos }) => Err(
                            ParseError::EndOfStream { pos },
                        ),
                        _ => Err(e),
                    };
                },
            }
        }
        proof {
            use_type_invariant(&*self);
        }
        let rest = self.capture(self.anchor);
        if rest.len() > 0 {
            parts.push(Part::Literal(slice_to_vec(rest)));
        }
        Ok(parts)
    }
}

} // verus!
