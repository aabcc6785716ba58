use vstd::prelude::*;
use vstd::std_specs::cmp::PartialEqSpecImpl;

verus! {

/// Indicates the different stacks or streams for each effect.
#[derive(Debug)]
pub enum Location {
    Main,
    Input,
    Output,
    Rnd,
    RndBool,
    RndFloat,
    /// Cells can only have a depth of 1, enforced by semantics of the calculus rather than the machine.
    Cell(String),
    Stack(String),
    Local(String),
}

/// The mathematical value of a location: names are character sequences.
pub enum SpecLocation {
    Main,
    Input,
    Output,
    Rnd,
    RndBool,
    RndFloat,
    Cell(Seq<char>),
    Stack(Seq<char>),
    Local(Seq<char>),
}

impl View for Location {
    type V = SpecLocation;

    open spec fn view(&self) -> SpecLocation {
        match self {
            Location::Main => SpecLocation::Main,
            Location::Input => SpecLocation::Input,
            Location::Output => SpecLocation::Output,
            Location::Rnd => SpecLocation::Rnd,
            Location::RndBool => SpecLocation::RndBool,
            Location::RndFloat => SpecLocation::RndFloat,
            Location::Cell(s) => SpecLocation::Cell(s@),
            Location::Stack(s) => SpecLocation::Stack(s@),
            Location::Local(s) => SpecLocation::Local(s@),
        }
    }
}

impl Location {
    /// Compares two locations by value.
    pub fn same(&self, other: &Location) -> (r: bool)
        ensures
            r == (self@ == other@),
    {
        match (self, other) {
            (Location::Main, Location::Main) => true,
            (Location::Input, Location::Input) => true,
            (Location::Output, Location::Output) => true,
            (Location::Rnd, Location::Rnd) => true,
            (Location::RndBool, Location::RndBool) => true,
            (Location::RndFloat, Location::RndFloat) => true,
            (Location::Cell(a), Location::Cell(b)) => a.eq(b),
            (Location::Stack(a), Location::Stack(b)) => a.eq(b),
            (Location::Local(a), Location::Local(b)) => a.eq(b),
            _ => false,
        }
    }

    /// Copies a location.
    pub fn duplicate(&self) -> (r: Location)
        ensures
            r@ == self@,
    {
        match self {
            Location::Main => Location::Main,
            Location::Input => Location::Input,
            Location::Output => Location::Output,
            Location::Rnd => Location::Rnd,
            Location::RndBool => Location::RndBool,
            Location::RndFloat => Location::RndFloat,
            Location::Cell(s) => Location::Cell(s.clone()),
            Location::Stack(s) => Location::Stack(s.clone()),
            Location::Local(s) => Location::Local(s.clone()),
        }
    }
}

impl PartialEq for Location {
    fn eq(&self, other: &Self) -> (r: bool) {
        self.same(other)
    }
}

impl PartialEqSpecImpl for Location {
    open spec fn obeys_eq_spec() -> bool {
        true
    }

    open spec fn eq_spec(&self, other: &Location) -> bool {
        self@ == other@
    }
}

impl Clone for Location {
    fn clone(&self) -> (r: Self)
        ensures
            r@ == self@,
    {
        self.duplicate()
    }
}

} // verus!
