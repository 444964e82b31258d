//! Why a range notation is refused.

use vstd::prelude::*;

verus! {

/// The reason a notation was refused. Every failure happens while a range is
/// built; a range that was built answers every query.
#[derive(Debug, PartialEq, Eq)]
pub enum RangeError {
    /// A character in a rank position is not one of `23456789TJQKA`.
    InvalidRankChar(char),
    /// A token has a length or a structure that no shape of the notation
    /// has; the token is handed back.
    MalformedToken(Vec<char>),
    /// The notation names no component at all.
    EmptyRange,
}

/// What a [`RangeError`] says, with the offending token as a sequence.
pub enum Failure {
    InvalidRankChar(char),
    MalformedToken(Seq<char>),
    EmptyRange,
}

impl View for RangeError {
    type V = Failure;

    open spec fn view(&self) -> Failure {
        match *self {
            RangeError::InvalidRankChar(c) => Failure::InvalidRankChar(c),
            RangeError::MalformedToken(token) => Failure::MalformedToken(token@),
            RangeError::EmptyRange => Failure::EmptyRange,
        }
    }
}

} // verus!
