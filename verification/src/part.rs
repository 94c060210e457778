//! The parts that a compiled pattern is made of.

use vstd::prelude::*;
use vstd::utf8::encode_utf8;

verus! {

/// One part of a compiled pattern.
#[derive(Debug, PartialEq)]
pub enum Part {
    /// A run of bytes that a path must hold as it stands.
    Literal(Vec<u8>),
    /// A named capture of one path segment.
    Param { name: String },
}

/// A part as plain data: a parameter's name by its bytes.
pub enum PartView {
    Literal(Seq<u8>),
    Param { name: Seq<u8> },
}

impl View for Part {
    type V = PartView;

    open spec fn view(&self) -> PartView {
        match self {
            Part::Literal(bytes) => PartView::Literal(bytes@),
            Part::Param { name } => PartView::Param { name: encode_utf8(name@) },
        }
    }
}

/// The parts of a sequence, each by its view.
pub open spec fn views(parts: Seq<Part>) -> Seq<PartView> {
    Seq::new(parts.len(), |i: int| parts[i]@)
}

} // verus!
