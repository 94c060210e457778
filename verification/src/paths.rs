//! Compiled route patterns and how a path is matched against one.

use vstd::prelude::*;
use vstd::slice::slice_subrange;
use vstd::string::StringSliceAdditionalSpecFns;
use vstd::utf8::encode_utf8;
use crate::class::SLASH;
use crate::error::ParseError;
use crate::grammar::{lemma_segment_end_bounds, lemma_segment_bytes, parse, segment_end};
use crate::parser::Parser;
use crate::part::{views, Part, PartView};
use crate::text::ascii_string;

verus! {

/// The value that a parameter took in a path.
#[derive(Debug, Clone, PartialEq)]
pub struct Match {
    pub name: String,
    pub value: String,
}

/// A match as plain data: name and value by their bytes.
pub struct MatchView {
    pub name: Seq<u8>,
    pub value: Seq<u8>,
}

impl View for Match {
    type V = MatchView;

    open spec fn view(&self) -> MatchView {
        MatchView { name: encode_utf8(self.name@), value: encode_utf8(self.value@) }
    }
}

/// The matches of a sequence, each by its view.
pub open spec fn match_views(matches: Seq<Match>) -> Seq<MatchView> {
    Seq::new(matches.len(), |i: int| matches[i]@)
}

/// `found` with `more` behind them, where the rest matched.
pub open spec fn then_matches(found: Seq<MatchView>, more: Option<Seq<MatchView>>) -> Option<
    Seq<MatchView>,
> {
    match more {
        Some(rest) => Some(found + rest),
        None => None,
    }
}

/// What the parts capture from `path`, taken from left to right: a literal
/// stands for itself, a parameter takes one segment, which may be empty, and
/// nothing of the path may be left over.
pub open spec fn captures(parts: Seq<PartView>, path: Seq<u8>) -> Option<Seq<MatchView>>
    decreases parts.len(),
{
    if parts.len() == 0 {
        if path.len() == 0 {
            Some(seq![])
        } else {
            None
        }
    } else {
        match parts[0] {
            PartView::Literal(bytes) => {
                if bytes.is_prefix_of(path) {
                    captures(parts.drop_first(), path.skip(bytes.len() as int))
                } else {
                    None
                }
            },
            PartView::Param { name } => {
                let end = segment_end(path, 0);
                then_matches(
                    seq![MatchView { name, value: path.take(end) }],
                    captures(parts.drop_first(), path.skip(end)),
                )
            },
        }
    }
}

/// What a pattern with these parts captures from `path`, if it matches. The
/// pattern without parts is the root, which matches the path `/` alone.
pub open spec fn match_path(parts: Seq<PartView>, path: Seq<u8>) -> Option<Seq<MatchView>> {
    if parts.len() == 0 {
        if path == seq![SLASH] {
            Some(seq![])
        } else {
            None
        }
    } else {
        captures(parts, path)
    }
}

/// `found` is what matching `path` against a pattern with these parts gives.
pub open spec fn is_matched(parts: Seq<PartView>, path: Seq<u8>, found: Option<Vec<Match>>) -> bool {
    match match_path(parts, path) {
        Some(expected) => found matches Some(matches) && match_views(matches@) == expected,
        None => found is None,
    }
}

/// `compiled` is what compiling `pattern` gives.
pub open spec fn is_compiled(pattern: Seq<char>, compiled: Result<Path, ParseError>) -> bool {
    match parse(encode_utf8(pattern)) {
        Ok(parts) => {
            &&& compiled matches Ok(path)
            &&& path.parts() == parts
            &&& path.raw() == pattern
        },
        Err(e) => compiled matches Err(error) && error == e,
    }
}

/// The rest of `bytes` behind `prefix`, where `bytes` starts with it.
fn strip_prefix<'a>(bytes: &'a [u8], prefix: &[u8]) -> (rest: Option<&'a [u8]>)
    ensures
        rest is Some <==> prefix@.is_prefix_of(bytes@),
        rest matches Some(r) ==> r@ == bytes@.skip(prefix@.len() as int),
{
    if prefix.len() > bytes.len() {
        return None;
    }
    let mut i: usize = 0;
    while i < prefix.len()
        invariant
            i <= prefix@.len() <= bytes@.len(),
            forall|j: int| 0 <= j < i ==> prefix@[j] == bytes@[j],
        decreases prefix@.len() - i,
    {
        if prefix[i] != bytes[i] {
            return None;
        }
        i += 1;
    }
    Some(slice_subrange(bytes, prefix.len(), bytes.len()))
}

/// A compiled route pattern.
#[derive(Debug)]
pub struct Path {
    path: String,
    parts: Vec<Part>,
}

impl AsRef<str> for Path {
    /// The pattern as it was written: the parts are those of this text.
    fn as_ref(&self) -> (raw: &str)
        ensures
            raw@ == self.raw(),
            parse(raw.spec_bytes()) == Ok::<Seq<PartView>, ParseError>(self.parts()),
    {
        proof {
            use_type_invariant(self);
        }
        self.path.as_str()
    }
}

impl Path {
    #[verifier::type_invariant]
    spec fn compiled(&self) -> bool {
        parse(encode_utf8(self.path@)) == Ok::<Seq<PartView>, ParseError>(views(self.parts@))
    }

    /// The pattern as it was written.
    pub closed spec fn raw(&self) -> Seq<char> {
        self.path@
    }

    /// The parts that the pattern was compiled to.
    pub closed spec fn parts(&self) -> Seq<PartView> {
        views(self.parts@)
    }

    /// Compiles a pattern: it is kept as it was written, beside the parts
    /// that the grammar finds in its bytes. A pattern that breaks the grammar
    /// is refused with the first violation.
    pub fn new(path: String) -> (compiled: Result<Self, ParseError>)
        ensures
            is_compiled(path@, compiled),
    {
        let parsed = {
            let mut parser = Parser::new(path.as_str().as_bytes());
            parser.parse()
        };
        match parsed {
            Ok(parts) => Ok(Self { path, parts }),
            Err(e) => Err(e),
        }
    }

    /// Matches a path against the pattern and gives what the parameters
    /// took, in the order of the pattern. The path is taken as it is: a
    /// trailing `/` is not dropped here.
    pub fn matches(&self, path: &str) -> (found: Option<Vec<Match>>)
        ensures
            is_matched(self.parts(), path.spec_bytes(), found),
    {
        let mut matches: Vec<Match> = Vec::new();
        let mut bytes = path.as_bytes();
        if self.parts.len() == 0 {
            if bytes.len() == 1 && bytes[0] == SLASH {
                assert(match_views(matches@) =~= Seq::<MatchView>::empty());
                return Some(matches);
            } else {
                return None;
            }
        }
        let ghost whole = captures(self.parts(), path.spec_bytes());
        assert(self.parts().skip(0) =~= self.parts());
        let mut k: usize = 0;
        while k < self.parts.len()
            invariant
                k <= self.parts@.len(),
                whole == then_matches(
                    match_views(matches@),
                    captures(self.parts().skip(k as int), bytes@),
                ),
                whole == match_path(self.parts(), path.spec_bytes()),
            decreases self.parts@.len() - k,
        {
            assert(self.parts().skip(k as int).drop_first() =~= self.parts().skip(k + 1));
            match &self.parts[k] {
                Part::Literal(literal) => match strip_prefix(bytes, literal.as_slice()) {
                    Some(tail) => {
                        bytes = tail;
                    },
                    None => {
                        return None;
                    },
                },
                Part::Param { name } => {
                    let mut parser = Parser::new(bytes);
                    let segment = parser.segment();
                    proof {
                        lemma_segment_end_bounds(bytes@, 0);
                        lemma_segment_bytes(bytes@, 0);
                    }
                    let parameter = ascii_string(segment);
                    bytes = slice_subrange(bytes, segment.len(), bytes.len());
                    matches.push(Match { name: name.clone(), value: parameter });
                },
            }
            k += 1;
        }
        if bytes.len() == 0 {
            Some(matches)
        } else {
            None
        }
    }
}

} // verus!
