//! The ways in which a decode stops short of a value.

use vstd::prelude::*;

verus! {

/// The part of the layout that a fatal error was found in.
#[derive(Clone, Copy, Debug, PartialEq, Eq, Structural)]
pub enum Field {
    /// The signature that opens the header.
    LeadingSignature,
    /// The name of a colour's sample.
    SampleName,
    /// The name of the graph that a colour was cleaned against.
    GraphName,
    /// The signature that closes the header.
    TrailingSignature,
}

/// Why a decoder returned no value.
///
/// `Incomplete` is the only variant that more input can cure; the other two
/// are final. `offset` is the position, counted from the start of the decoded
/// input, at which the offending field begins.
#[derive(Clone, Copy, Debug, PartialEq, Eq, Structural)]
pub enum DecodeError {
    /// The input ends before the value does.
    Incomplete,
    /// A signature does not match.
    Malformed { offset: usize, field: Field },
    /// A length-prefixed text is not UTF-8.
    InvalidText { offset: usize, field: Field },
}

/// The mathematical counterpart of [`DecodeError`], with unbounded offsets.
pub ghost enum Fault {
    Incomplete,
    Malformed { offset: int, field: Field },
    InvalidText { offset: int, field: Field },
}

impl Fault {
    /// Whether more input cannot change the outcome.
    pub open spec fn is_fatal(self) -> bool {
        self != Fault::Incomplete
    }
}

impl View for DecodeError {
    type V = Fault;

    open spec fn view(&self) -> Fault {
        match *self {
            DecodeError::Incomplete => Fault::Incomplete,
            DecodeError::Malformed { offset, field } => Fault::Malformed {
                offset: offset as int,
                field,
            },
            DecodeError::InvalidText { offset, field } => Fault::InvalidText {
                offset: offset as int,
                field,
            },
        }
    }
}

impl DecodeError {
    /// Whether more input cannot change the outcome.
    pub fn is_fatal(&self) -> (fatal: bool)
        ensures
            fatal == self@.is_fatal(),
    {
        match self {
            DecodeError::Incomplete => false,
            DecodeError::Malformed { .. } => true,
            DecodeError::InvalidText { .. } => true,
        }
    }
}

} // verus!
