//! The failures of the semantic layer, shared by every resolver that walks
//! an expression tree against a keyword grammar.
use vstd::prelude::*;

verus! {

/// An expression of the wrong variant where the grammar required a specific
/// one; a tuple with no elements where an operator was required; a keyword
/// that no grammar rule knows; or the wrong number of positional operands.
#[derive(Debug, PartialEq, Eq)]
pub enum Error {
    IllegalElement,
    MissingOperator,
    UnknownOperator(String),
    OperandMismatch,
}

/// Mathematical model of [`Error`].
pub enum SpecSynErr {
    IllegalElement,
    MissingOperator,
    UnknownOperator(Seq<char>),
    OperandMismatch,
}

impl Error {
    /// The failure seen as a mathematical value.
    pub open spec fn model(self) -> SpecSynErr {
        match self {
            Error::IllegalElement => SpecSynErr::IllegalElement,
            Error::MissingOperator => SpecSynErr::MissingOperator,
            Error::UnknownOperator(name) => SpecSynErr::UnknownOperator(name@),
            Error::OperandMismatch => SpecSynErr::OperandMismatch,
        }
    }
}

pub type ParseResult<T> = Result<T, Error>;

} // verus!
