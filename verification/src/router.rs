//! What a router decides from compiled patterns and the path of a request.

use vstd::prelude::*;
use vstd::string::StringSliceAdditionalSpecFns;
use vstd::utf8::{encode_utf8_valid_utf8, is_char_boundary_iff_not_is_continuation_byte};
use crate::class::SLASH;
use crate::paths::{is_matched, match_path, Match, Path};

verus! {

/// A hook that a router runs around its handlers.
pub trait Middleware {

}

/// Why a router gave a request up.
#[derive(Debug)]
pub enum RouterError {
    /// The body of the request could not be read.
    InvalidBody,
}

/// The largest body that a request may bring, in bytes.
pub const MAX_BODY_SIZE: u64 = 65536;

/// What a router does with a request.
#[derive(Debug, Clone, Copy, PartialEq, Eq)]
pub enum Admission {
    /// No route matches: the answer is "not found".
    NotFound,
    /// A route matches, but the body may be larger than the limit: the
    /// answer is "payload too large".
    TooLarge,
    /// A route matches and the body fits: it is read and handed to the
    /// handler.
    Handle,
}

/// What becomes of a request for which a route was found or not, and whose
/// body is at most `upper` bytes long, where that is known.
pub open spec fn admission(routed: bool, upper: Option<u64>) -> Admission {
    if !routed {
        Admission::NotFound
    } else if upper matches Some(size) && size <= MAX_BODY_SIZE {
        Admission::Handle
    } else {
        Admission::TooLarge
    }
}

/// Decides what to do with a request before its body is read: a body of
/// unknown size counts as too large.
pub fn decide(routed: bool, upper: Option<u64>) -> (decision: Admission)
    ensures
        decision == admission(routed, upper),
{
    if !routed {
        return Admission::NotFound;
    }
    match upper {
        Some(size) => {
            if size <= MAX_BODY_SIZE {
                Admission::Handle
            } else {
                Admission::TooLarge
            }
        },
        None => Admission::TooLarge,
    }
}

/// A path without its one trailing `/`: the root path keeps it.
pub open spec fn normalized(path: Seq<u8>) -> Seq<u8> {
    if path.len() > 1 && path.last() == SLASH {
        path.drop_last()
    } else {
        path
    }
}

/// Takes one trailing `/` from a path that is not the root path, as a
/// pattern is matched against a path without it.
pub fn normalize(path: &str) -> (trimmed: &str)
    ensures
        trimmed.spec_bytes() == normalized(path.spec_bytes()),
{
    let bytes = path.as_bytes();
    let len = bytes.len();
    if len > 1 && bytes[len - 1] == SLASH {
        proof {
            encode_utf8_valid_utf8(path@);
            is_char_boundary_iff_not_is_continuation_byte(bytes@, len - 1);
        }
        let (head, _) = path.split_at(len - 1);
        head
    } else {
        path
    }
}

/// `found` is the first of the patterns that matches `path`, with what it
/// takes from the path, or nothing where none matches.
pub open spec fn is_first_match(
    patterns: Seq<Path>,
    path: Seq<u8>,
    found: Option<(usize, Vec<Match>)>,
) -> bool {
    match found {
        Some((index, matches)) => {
            &&& index < patterns.len()
            &&& is_matched(patterns[index as int].parts(), path, Some(matches))
            &&& forall|i: int| 0 <= i < index ==> match_path(patterns[i].parts(), path) is None
        },
        None => forall|i: int| 0 <= i < patterns.len() ==> match_path(patterns[i].parts(), path)
            is None,
    }
}

/// Tries the patterns in their order and stops at the first that matches.
pub fn first_match(patterns: &[Path], path: &str) -> (found: Option<(usize, Vec<Match>)>)
    ensures
        is_first_match(patterns@, path.spec_bytes(), found),
{
    let mut index: usize = 0;
    while index < patterns.len()
        invariant
            index <= patterns@.len(),
            forall|i: int|
                0 <= i < index ==> match_path(patterns@[i].parts(), path.spec_bytes()) is None,
        decreases patterns@.len() - index,
    {
        if let Some(matches) = patterns[index].matches(path) {
            return Some((index, matches));
        }
        index += 1;
    }
    None
}

} // verus!
