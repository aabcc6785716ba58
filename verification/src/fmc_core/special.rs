use vstd::prelude::*;

verus! {

/// The built-in primitive operations of the machine.
#[derive(Clone, Copy, PartialEq, Eq, Structural, Debug)]
pub enum Special {
    LogicOr,
    LogicAnd,
    LogicNot,
    Equal,
    NotEqual,
    LessThan,
    GreaterThan,
    LessThanEqual,
    GreaterThanEqual,
    Addition,
    Subraction,
    Multiplication,
    Division,
    Modulo,
    IntCast,
}

} // verus!
