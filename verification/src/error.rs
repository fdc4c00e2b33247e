//! The ways a scan can fail.

use vstd::prelude::*;

verus! {

/// Why a scan stopped. Every failure ends the whole scan: there is no partial
/// result. `offset` is the byte offset into the input at which the offending
/// fragment starts.
#[derive(PartialEq, Eq, Clone, Debug)]
pub enum LexError {
    /// A byte that starts no token; `ch` is the character with that byte's
    /// code point.
    InvalidCharacter { ch: char, offset: usize },
    /// A character that is a token only together with a certain follower, met
    /// without it: a colon that no `=` follows.
    MalformedOperator { ch: char, offset: usize },
    /// A number literal whose value does not fit in 32 bits.
    NumberOverflow { digits: String, offset: usize },
    /// A word whose bytes are not well-formed UTF-8.
    InvalidEncoding { offset: usize },
}

/// The mathematical value of a [`LexError`].
pub enum LexErrorView {
    InvalidCharacter { ch: char, offset: int },
    MalformedOperator { ch: char, offset: int },
    NumberOverflow { digits: Seq<char>, offset: int },
    InvalidEncoding { offset: int },
}

impl View for LexError {
    type V = LexErrorView;

    open spec fn view(&self) -> LexErrorView {
        match self {
            LexError::InvalidCharacter { ch, offset } => LexErrorView::InvalidCharacter {
                ch: *ch,
                offset: *offset as int,
            },
            LexError::MalformedOperator { ch, offset } => LexErrorView::MalformedOperator {
                ch: *ch,
                offset: *offset as int,
            },
            LexError::NumberOverflow { digits, offset } => LexErrorView::NumberOverflow {
                digits: digits@,
                offset: *offset as int,
            },
            LexError::InvalidEncoding { offset } => LexErrorView::InvalidEncoding {
                offset: *offset as int,
            },
        }
    }
}

impl LexErrorView {
    /// The same failure, `by` bytes further into the input.
    pub open spec fn shifted(self, by: int) -> LexErrorView {
        match self {
            LexErrorView::InvalidCharacter { ch, offset } => LexErrorView::InvalidCharacter {
                ch,
                offset: offset + by,
            },
            LexErrorView::MalformedOperator { ch, offset } => LexErrorView::MalformedOperator {
                ch,
                offset: offset + by,
            },
            LexErrorView::NumberOverflow { digits, offset } => LexErrorView::NumberOverflow {
                digits,
                offset: offset + by,
            },
            LexErrorView::InvalidEncoding { offset } => LexErrorView::InvalidEncoding {
                offset: offset + by,
            },
        }
    }
}

} // verus!
