//! Why a panel could not be laid out.

use vstd::prelude::*;

verus! {

/// A layout failure, with the value that caused it.
#[derive(Debug, PartialEq, Eq)]
pub enum LayoutError {
    /// The title has more characters than the panel is wide.
    TitleTooLong { title: String },
    /// A word of the body has more characters than the panel is wide.
    WordTooLong { word: String },
    /// The body wraps into `count` lines, more than the panel is high.
    TooManyLines { count: usize },
}

/// The mathematical content of a [`LayoutError`].
pub ghost enum Fault {
    TitleTooLong(Seq<char>),
    WordTooLong(Seq<char>),
    TooManyLines(nat),
}

impl View for LayoutError {
    type V = Fault;

    open spec fn view(&self) -> Fault {
        match self {
            LayoutError::TitleTooLong { title } => Fault::TitleTooLong(title@),
            LayoutError::WordTooLong { word } => Fault::WordTooLong(word@),
            LayoutError::TooManyLines { count } => Fault::TooManyLines(*count as nat),
        }
    }
}

} // verus!
