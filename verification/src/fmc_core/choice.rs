use vstd::prelude::*;
use vstd::std_specs::cmp::PartialEqSpecImpl;

verus! {

/// A constant value carried by a choice.
#[derive(Clone, Copy, PartialEq, Eq, Structural, Debug)]
pub enum Constant {
    Integer(i32),
    Boolean(bool),
}

/// Control-flow signals.
#[derive(Debug)]
pub enum Exception {
    Skip,
    Break,
    Return,
    Exception(String),
}

/// The mathematical value of an exception.
pub enum SpecException {
    Skip,
    Break,
    Return,
    Exception(Seq<char>),
}

/// A choice: the value that a term terminates with.
#[derive(Debug)]
pub enum Choice {
    Constant(Constant),
    Exception(Exception),
}

/// The mathematical value of a choice.
pub enum SpecChoice {
    Constant(Constant),
    Exception(SpecException),
}

impl View for Exception {
    type V = SpecException;

    open spec fn view(&self) -> SpecException {
        match self {
            Exception::Skip => SpecException::Skip,
            Exception::Break => SpecException::Break,
            Exception::Return => SpecException::Return,
            Exception::Exception(s) => SpecException::Exception(s@),
        }
    }
}

impl View for Choice {
    type V = SpecChoice;

    open spec fn view(&self) -> SpecChoice {
        match self {
            Choice::Constant(c) => SpecChoice::Constant(*c),
            Choice::Exception(e) => SpecChoice::Exception(e@),
        }
    }
}

/// The skip choice `*`, the neutral continuation signal.
pub open spec fn spec_skip() -> SpecChoice {
    SpecChoice::Exception(SpecException::Skip)
}

impl Exception {
    /// Compares two exceptions by value.
    pub fn same(&self, other: &Exception) -> (r: bool)
        ensures
            r == (self@ == other@),
    {
        match (self, other) {
            (Exception::Skip, Exception::Skip) => true,
            (Exception::Break, Exception::Break) => true,
            (Exception::Return, Exception::Return) => true,
            (Exception::Exception(a), Exception::Exception(b)) => a.eq(b),
            _ => false,
        }
    }

    /// Copies an exception.
    pub fn duplicate(&self) -> (r: Exception)
        ensures
            r@ == self@,
    {
        match self {
            Exception::Skip => Exception::Skip,
            Exception::Break => Exception::Break,
            Exception::Return => Exception::Return,
            Exception::Exception(s) => Exception::Exception(s.clone()),
        }
    }
}

impl Choice {
    /// The skip choice.
    pub fn skip() -> (r: Choice)
        ensures
            r@ == spec_skip(),
    {
        Choice::Exception(Exception::Skip)
    }

    /// Compares two choices by value.
    pub fn same(&self, other: &Choice) -> (r: bool)
        ensures
            r == (self@ == other@),
    {
        match (self, other) {
            (Choice::Constant(a), Choice::Constant(b)) => *a == *b,
            (Choice::Exception(a), Choice::Exception(b)) => a.same(b),
            _ => false,
        }
    }

    /// Copies a choice.
    pub fn duplicate(&self) -> (r: Choice)
        ensures
            r@ == self@,
    {
        match self {
            Choice::Constant(c) => Choice::Constant(*c),
            Choice::Exception(e) => Choice::Exception(e.duplicate()),
        }
    }

    /// Whether this is the skip choice.
    pub fn is_skip(&self) -> (r: bool)
        ensures
            r == (self@ == spec_skip()),
    {
        match self {
            Choice::Exception(Exception::Skip) => true,
            _ => false,
        }
    }
}

impl PartialEq for Exception {
    fn eq(&self, other: &Self) -> (r: bool) {
        self.same(other)
    }
}

impl PartialEqSpecImpl for Exception {
    open spec fn obeys_eq_spec() -> bool {
        true
    }

    open spec fn eq_spec(&self, other: &Exception) -> bool {
        self@ == other@
    }
}

impl Clone for Exception {
    fn clone(&self) -> (r: Self)
        ensures
            r@ == self@,
    {
        self.duplicate()
    }
}

impl PartialEq for Choice {
    fn eq(&self, other: &Self) -> (r: bool) {
        self.same(other)
    }
}

impl PartialEqSpecImpl for Choice {
    open spec fn obeys_eq_spec() -> bool {
        true
    }

    open spec fn eq_spec(&self, other: &Choice) -> bool {
        self@ == other@
    }
}

impl Clone for Choice {
    fn clone(&self) -> (r: Self)
        ensures
            r@ == self@,
    {
        self.duplicate()
    }
}

} // verus!
