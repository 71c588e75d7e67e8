//! The errors of this crate.

use vstd::prelude::*;

verus! {

/// Why an expression was rejected, or why a source of randomness failed.
#[derive(PartialEq, Eq, Clone, Copy, Debug, Structural)]
pub enum ErrorKind {
    /// The oracle sent a number that is not an integer of the requested range.
    RandomOrgOutOfRange,
    /// The oracle sent something that is not a list of numbers.
    RandomOrgInvalidResponse,
    /// The oracle could not be reached.
    RandomOrgUnreachable,
    /// A term holds something else than lowercase letters and digits.
    DiceStringInvalidCharacters,
    /// A term names more than two operations after its sides.
    DiceStringTooManyParts,
    /// A term names an operation that does not exist, or leaves out its argument.
    DiceStringInvalidOp,
    /// A number of a term does not fit in sixteen bits.
    DiceStringNumberTooLarge,
    /// A term asks for more than fifty dice.
    DiceAmountTooLarge,
    /// A term asks for dice of more than a thousand sides.
    DiceTooManySides,
    /// A term whose total is zero stands behind a division.
    DiceExprDivisionByZero,
    /// An argument of an operation does not suit the dice it is applied to.
    DiceExprInvalidArgument,
    /// The operation cannot be applied to dice of that many sides.
    DiceExprInvalidSides,
    /// Two operators meet with nothing between them, or one ends the expression.
    CompoundDiceExprInvalidOpStructure,
    /// More than one term of an expression failed to roll.
    CompoundDiceMultipleRollErrors,
}

/// An error of this crate: no more than its kind.
#[derive(Clone, Copy, Debug)]
pub struct DiceError {
    /// What went wrong.
    pub kind: ErrorKind,
}

impl DiceError {
    /// The error of the given kind.
    pub fn new(kind: ErrorKind) -> (e: DiceError)
        ensures
            e.kind == kind,
    {
        DiceError { kind }
    }
}

} // verus!
