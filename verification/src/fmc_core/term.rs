use vstd::prelude::*;
use vstd::string::StrSliceExecFns;
use vstd::std_specs::cmp::PartialEqSpecImpl;

use crate::fmc_core::choice::{Choice, SpecChoice};
use crate::fmc_core::location::{Location, SpecLocation};
use crate::fmc_core::operation::Operation;
use crate::fmc_core::special::Special;
use crate::fmc_core::choice::{spec_skip, Constant, Exception, SpecException};
use crate::text::{concat, spec_digits, text_eq, u64_text};
use crate::fmc_core::names::{
    lemma_insert_no_duplicates, lemma_list_contains, lemma_merge_no_duplicates,
    lemma_remove_no_duplicates, locations_insert, locations_view, names_insert, names_merge,
    names_contains, names_remove, spec_insert, spec_merge, spec_remove,
};

verus! {

/// Recursively defines a term of the calculus.
#[derive(Debug)]
pub enum Term {
    Variable { name: String },
    Application { function: Box<Term>, argument: Box<Term>, location: Location },
    Abstraction { binds: String, term: Box<Term>, location: Location },
    Operation(Operation),
    Choice(Choice),
    Case { term: Box<Term>, exit: Choice, then: Box<Term> },
    Loop { term: Box<Term>, branch: Choice },
    Special(Special),
}

/// The mathematical value of a term: every name is a character sequence.
pub enum SpecTerm {
    Variable { name: Seq<char> },
    Application { function: Box<SpecTerm>, argument: Box<SpecTerm>, location: SpecLocation },
    Abstraction { binds: Seq<char>, term: Box<SpecTerm>, location: SpecLocation },
    Operation(SpecOperation),
    Choice(SpecChoice),
    Case { term: Box<SpecTerm>, exit: SpecChoice, then: Box<SpecTerm> },
    Loop { term: Box<SpecTerm>, branch: SpecChoice },
    Special(Special),
}

/// The mathematical value of an operation.
pub enum SpecOperation {
    Read,
    Write { argument: Box<SpecTerm> },
    Update { location: SpecLocation, argument: Box<SpecTerm> },
    Lookup { cell: Seq<char> },
    Rnd { argument1: Box<SpecTerm>, argument2: Box<SpecTerm> },
    Sequence { first: Box<SpecTerm>, second: Box<SpecTerm> },
    Throw { error_code: SpecChoice },
    TryCatch { try_: Box<SpecTerm>, catch: SpecChoice, failure: Box<SpecTerm> },
    Constant { choice: SpecChoice },
    IfThenElse { condition: Box<SpecTerm>, then: Box<SpecTerm>, else_: Box<SpecTerm> },
    Switch { term: Box<SpecTerm>, cases: Seq<(SpecChoice, SpecTerm)> },
    DoWhile { term: Box<SpecTerm>, condition: Box<SpecTerm> },
    WhileDo { condition: Box<SpecTerm>, term: Box<SpecTerm> },
}

/// The value of a term.
pub open spec fn term_view(t: &Term) -> SpecTerm
    decreases t,
{
    match t {
        Term::Variable { name } => SpecTerm::Variable { name: name@ },
        Term::Application { function, argument, location } => SpecTerm::Application {
            function: Box::new(term_view(function)),
            argument: Box::new(term_view(argument)),
            location: location@,
        },
        Term::Abstraction { binds, term, location } => SpecTerm::Abstraction {
            binds: binds@,
            term: Box::new(term_view(term)),
            location: location@,
        },
        Term::Operation(o) => SpecTerm::Operation(op_view(o)),
        Term::Choice(c) => SpecTerm::Choice(c@),
        Term::Case { term, exit, then } => SpecTerm::Case {
            term: Box::new(term_view(term)),
            exit: exit@,
            then: Box::new(term_view(then)),
        },
        Term::Loop { term, branch } => SpecTerm::Loop {
            term: Box::new(term_view(term)),
            branch: branch@,
        },
        Term::Special(s) => SpecTerm::Special(*s),
    }
}

/// The value of the cases of a switch.
pub open spec fn cases_view(cases: Seq<(Choice, Box<Term>)>) -> Seq<(SpecChoice, SpecTerm)>
    decreases cases,
{
    if cases.len() == 0 {
        Seq::empty()
    } else {
        cases_view(cases.drop_last()).push((cases.last().0@, term_view(&cases.last().1)))
    }
}

/// The value of an operation.
pub open spec fn op_view(o: &Operation) -> SpecOperation
    decreases o,
{
    match o {
        Operation::Read => SpecOperation::Read,
        Operation::Write { argument } => SpecOperation::Write { argument: Box::new(term_view(argument)) },
        Operation::Update { location, argument } => SpecOperation::Update {
            location: location@,
            argument: Box::new(term_view(argument)),
        },
        Operation::Lookup { cell } => SpecOperation::Lookup { cell: cell@ },
        Operation::Rnd { argument1, argument2 } => SpecOperation::Rnd {
            argument1: Box::new(term_view(argument1)),
            argument2: Box::new(term_view(argument2)),
        },
        Operation::Sequence { first, second } => SpecOperation::Sequence {
            first: Box::new(term_view(first)),
            second: Box::new(term_view(second)),
        },
        Operation::Throw { error_code } => SpecOperation::Throw { error_code: error_code@ },
        Operation::TryCatch { try_, catch, failure } => SpecOperation::TryCatch {
            try_: Box::new(term_view(try_)),
            catch: catch@,
            failure: Box::new(term_view(failure)),
        },
        Operation::Constant { choice } => SpecOperation::Constant { choice: choice@ },
        Operation::IfThenElse { condition, then, else_ } => SpecOperation::IfThenElse {
            condition: Box::new(term_view(condition)),
            then: Box::new(term_view(then)),
            else_: Box::new(term_view(else_)),
        },
        Operation::Switch { term, cases } => SpecOperation::Switch {
            term: Box::new(term_view(term)),
            cases: cases_view(cases@),
        },
        Operation::DoWhile { term, condition } => SpecOperation::DoWhile {
            term: Box::new(term_view(term)),
            condition: Box::new(term_view(condition)),
        },
        Operation::WhileDo { condition, term } => SpecOperation::WhileDo {
            condition: Box::new(term_view(condition)),
            term: Box::new(term_view(term)),
        },
    }
}

impl View for Term {
    type V = SpecTerm;

    open spec fn view(&self) -> SpecTerm {
        term_view(self)
    }
}


/// The length and entries of the value of switch cases.
pub proof fn lemma_cases_view(cases: Seq<(Choice, Box<Term>)>)
    ensures
        cases_view(cases).len() == cases.len(),
        forall|i: int|
            0 <= i < cases.len() ==> #[trigger] cases_view(cases)[i] == (cases[i].0@, term_view(
                &cases[i].1,
            )),
    decreases cases.len(),
{
    if cases.len() > 0 {
        lemma_cases_view(cases.drop_last());
    }
}

impl Term {
    /// Compares two terms by value.
    pub fn same(&self, other: &Term) -> (r: bool)
        ensures
            r == (self@ == other@),
        decreases self,
    {
        match (self, other) {
            (Term::Variable { name: a }, Term::Variable { name: b }) => a.eq(b),
            (
                Term::Application { function: f1, argument: a1, location: l1 },
                Term::Application { function: f2, argument: a2, location: l2 },
            ) => l1.same(l2) && f1.same(f2) && a1.same(a2),
            (
                Term::Abstraction { binds: b1, term: t1, location: l1 },
                Term::Abstraction { binds: b2, term: t2, location: l2 },
            ) => b1.eq(b2) && l1.same(l2) && t1.same(t2),
            (Term::Operation(o1), Term::Operation(o2)) => o1.same(o2),
            (Term::Choice(c1), Term::Choice(c2)) => c1.same(c2),
            (
                Term::Case { term: t1, exit: e1, then: h1 },
                Term::Case { term: t2, exit: e2, then: h2 },
            ) => e1.same(e2) && t1.same(t2) && h1.same(h2),
            (Term::Loop { term: t1, branch: b1 }, Term::Loop { term: t2, branch: b2 }) => b1.same(
                b2,
            ) && t1.same(t2),
            (Term::Special(s1), Term::Special(s2)) => *s1 == *s2,
            _ => false,
        }
    }

    /// Copies a term.
    pub fn duplicate(&self) -> (r: Term)
        ensures
            r@ == self@,
        decreases self,
    {
        match self {
            Term::Variable { name } => Term::Variable { name: name.clone() },
            Term::Application { function, argument, location } => Term::Application {
                function: Box::new(function.duplicate()),
                argument: Box::new(argument.duplicate()),
                location: location.duplicate(),
            },
            Term::Abstraction { binds, term, location } => Term::Abstraction {
                binds: binds.clone(),
                term: Box::new(term.duplicate()),
                location: location.duplicate(),
            },
            Term::Operation(o) => Term::Operation(o.duplicate()),
            Term::Choice(c) => Term::Choice(c.duplicate()),
            Term::Case { term, exit, then } => Term::Case {
                term: Box::new(term.duplicate()),
                exit: exit.duplicate(),
                then: Box::new(then.duplicate()),
            },
            Term::Loop { term, branch } => Term::Loop {
                term: Box::new(term.duplicate()),
                branch: branch.duplicate(),
            },
            Term::Special(s) => Term::Special(*s),
        }
    }
}

impl Operation {
    /// Compares two operations by value.
    pub fn same(&self, other: &Operation) -> (r: bool)
        ensures
            r == (self@ == other@),
        decreases self,
    {
        match (self, other) {
            (Operation::Read, Operation::Read) => true,
            (Operation::Write { argument: a1 }, Operation::Write { argument: a2 }) => a1.same(a2),
            (
                Operation::Update { location: l1, argument: a1 },
                Operation::Update { location: l2, argument: a2 },
            ) => l1.same(l2) && a1.same(a2),
            (Operation::Lookup { cell: c1 }, Operation::Lookup { cell: c2 }) => c1.eq(c2),
            (
                Operation::Rnd { argument1: a1, argument2: b1 },
                Operation::Rnd { argument1: a2, argument2: b2 },
            ) => a1.same(a2) && b1.same(b2),
            (
                Operation::Sequence { first: a1, second: b1 },
                Operation::Sequence { first: a2, second: b2 },
            ) => a1.same(a2) && b1.same(b2),
            (Operation::Throw { error_code: c1 }, Operation::Throw { error_code: c2 }) => c1.same(
                c2,
            ),
            (
                Operation::TryCatch { try_: t1, catch: c1, failure: f1 },
                Operation::TryCatch { try_: t2, catch: c2, failure: f2 },
            ) => c1.same(c2) && t1.same(t2) && f1.same(f2),
            (Operation::Constant { choice: c1 }, Operation::Constant { choice: c2 }) => c1.same(
                c2,
            ),
            (
                Operation::IfThenElse { condition: c1, then: t1, else_: e1 },
                Operation::IfThenElse { condition: c2, then: t2, else_: e2 },
            ) => c1.same(c2) && t1.same(t2) && e1.same(e2),
            (
                Operation::Switch { term: t1, cases: k1 },
                Operation::Switch { term: t2, cases: k2 },
            ) => {
                if !t1.same(t2) {
                    return false;
                }
                proof {
                    lemma_cases_view(k1@);
                    lemma_cases_view(k2@);
                }
                if k1.len() != k2.len() {
                    return false;
                }
                let mut i: usize = 0;
                #[verifier::loop_isolation(false)]
                while i < k1.len()
                    invariant
                        k1.len() == k2.len(),
                        i <= k1.len(),
                        cases_view(k1@).len() == k1.len(),
                        cases_view(k2@).len() == k2.len(),
                        forall|j: int|
                            0 <= j < k1.len() ==> #[trigger] cases_view(k1@)[j] == (
                                k1@[j].0@,
                                term_view(&k1@[j].1),
                            ),
                        forall|j: int|
                            0 <= j < k2.len() ==> #[trigger] cases_view(k2@)[j] == (
                                k2@[j].0@,
                                term_view(&k2@[j].1),
                            ),
                        forall|j: int| 0 <= j < i ==> cases_view(k1@)[j] == cases_view(k2@)[j],
                    decreases k1.len() - i,
                {
                    let c1 = &k1[i];
                    let c2 = &k2[i];
                    proof {
                        assert(decreases_to!(k1@ => k1@[i as int]));
                    }
                    if !c1.0.same(&c2.0) || !(&c1.1).same(&c2.1) {
                        proof {
                            assert(cases_view(k1@)[i as int] != cases_view(k2@)[i as int]);
                        }
                        return false;
                    }
                    i = i + 1;
                }
                proof {
                    assert(cases_view(k1@) =~= cases_view(k2@));
                }
                true
            },
            (
                Operation::DoWhile { term: t1, condition: c1 },
                Operation::DoWhile { term: t2, condition: c2 },
            ) => t1.same(t2) && c1.same(c2),
            (
                Operation::WhileDo { condition: c1, term: t1 },
                Operation::WhileDo { condition: c2, term: t2 },
            ) => c1.same(c2) && t1.same(t2),
            _ => false,
        }
    }

    /// Copies an operation.
    pub fn duplicate(&self) -> (r: Operation)
        ensures
            r@ == self@,
        decreases self,
    {
        match self {
            Operation::Read => Operation::Read,
            Operation::Write { argument } => Operation::Write {
                argument: Box::new(argument.duplicate()),
            },
            Operation::Update { location, argument } => Operation::Update {
                location: location.duplicate(),
                argument: Box::new(argument.duplicate()),
            },
            Operation::Lookup { cell } => Operation::Lookup { cell: cell.clone() },
            Operation::Rnd { argument1, argument2 } => Operation::Rnd {
                argument1: Box::new(argument1.duplicate()),
                argument2: Box::new(argument2.duplicate()),
            },
            Operation::Sequence { first, second } => Operation::Sequence {
                first: Box::new(first.duplicate()),
                second: Box::new(second.duplicate()),
            },
            Operation::Throw { error_code } => Operation::Throw {
                error_code: error_code.duplicate(),
            },
            Operation::TryCatch { try_, catch, failure } => Operation::TryCatch {
                try_: Box::new(try_.duplicate()),
                catch: catch.duplicate(),
                failure: Box::new(failure.duplicate()),
            },
            Operation::Constant { choice } => Operation::Constant { choice: choice.duplicate() },
            Operation::IfThenElse { condition, then, else_ } => Operation::IfThenElse {
                condition: Box::new(condition.duplicate()),
                then: Box::new(then.duplicate()),
                else_: Box::new(else_.duplicate()),
            },
            Operation::Switch { term, cases } => {
                let mut copied: Vec<(Choice, Box<Term>)> = Vec::new();
                let mut i: usize = 0;
                #[verifier::loop_isolation(false)]
                while i < cases.len()
                    invariant
                        i <= cases.len(),
                        copied.len() == i,
                        cases_view(copied@) == cases_view(cases@.take(i as int)),
                    decreases cases.len() - i,
                {
                    let c = &cases[i];
                    proof {
                        assert(decreases_to!(cases@ => cases@[i as int]));
                    }
                    let t = Box::new((&c.1).duplicate());
                    let ghost before = copied@;
                    copied.push((c.0.duplicate(), t));
                    proof {
                        assert(copied@.drop_last() =~= before);
                        assert(cases@.take(i + 1).drop_last() =~= cases@.take(i as int));
                    }
                    i = i + 1;
                }
                proof {
                    assert(cases@.take(cases.len() as int) =~= cases@);
                }
                Operation::Switch { term: Box::new(term.duplicate()), cases: copied }
            },
            Operation::DoWhile { term, condition } => Operation::DoWhile {
                term: Box::new(term.duplicate()),
                condition: Box::new(condition.duplicate()),
            },
            Operation::WhileDo { condition, term } => Operation::WhileDo {
                condition: Box::new(condition.duplicate()),
                term: Box::new(term.duplicate()),
            },
        }
    }
}

impl PartialEq for Term {
    fn eq(&self, other: &Self) -> (r: bool) {
        self.same(other)
    }
}

impl PartialEqSpecImpl for Term {
    open spec fn obeys_eq_spec() -> bool {
        true
    }

    open spec fn eq_spec(&self, other: &Term) -> bool {
        self@ == other@
    }
}

impl Clone for Term {
    fn clone(&self) -> (r: Self)
        ensures
            r@ == self@,
    {
        self.duplicate()
    }
}

impl PartialEq for Operation {
    fn eq(&self, other: &Self) -> (r: bool) {
        self.same(other)
    }
}

impl PartialEqSpecImpl for Operation {
    open spec fn obeys_eq_spec() -> bool {
        true
    }

    open spec fn eq_spec(&self, other: &Operation) -> bool {
        self@ == other@
    }
}

impl Clone for Operation {
    fn clone(&self) -> (r: Self)
        ensures
            r@ == self@,
    {
        self.duplicate()
    }
}

} // verus!

verus! {

/// A source of fresh variable and location names: `x1`, `x2`, ... and `c1`, `c2`, ...
#[derive(Clone, Copy, Debug)]
pub struct NameSupply {
    pub next_var: u64,
    pub next_location: u64,
}

/// The counter after one more name has been drawn.
pub open spec fn spec_next(n: u64) -> u64 {
    if n == u64::MAX {
        0
    } else {
        (n + 1) as u64
    }
}

/// The variable name drawn when the counter is `n`.
pub open spec fn spec_var_name(n: u64) -> Seq<char> {
    seq!['x'] + spec_digits(n as nat)
}

/// The location name drawn when the counter is `n`.
pub open spec fn spec_location_name(n: u64) -> Seq<char> {
    seq!['c'] + spec_digits(n as nat)
}

impl NameSupply {
    /// A supply whose first names are `x1` and `c1`.
    pub fn new() -> (r: NameSupply)
        ensures
            r.next_var == 1,
            r.next_location == 1,
    {
        NameSupply { next_var: 1, next_location: 1 }
    }

    /// A supply whose first names are numbered `first`.
    pub fn starting_at(first: u64) -> (r: NameSupply)
        ensures
            r.next_var == first,
            r.next_location == first,
    {
        NameSupply { next_var: first, next_location: first }
    }
}

/// Draws a fresh variable name.
///
/// For example, used when performing capture-avoiding substitution.
pub fn fresh_var(names: &mut NameSupply) -> (s: String)
    ensures
        s@ == spec_var_name(old(names).next_var),
        final(names).next_var == spec_next(old(names).next_var),
        final(names).next_location == old(names).next_location,
{
    let id = names.next_var;
    names.next_var = if id == u64::MAX {
        0
    } else {
        id + 1
    };
    let digits = u64_text(id);
    proof {
        reveal_strlit("x");
    }
    concat("x", digits.as_str())
}

/// Draws a fresh location name.
pub fn fresh_location(names: &mut NameSupply) -> (s: String)
    ensures
        s@ == spec_location_name(old(names).next_location),
        final(names).next_location == spec_next(old(names).next_location),
        final(names).next_var == old(names).next_var,
{
    let id = names.next_location;
    names.next_location = if id == u64::MAX {
        0
    } else {
        id + 1
    };
    let digits = u64_text(id);
    proof {
        reveal_strlit("c");
    }
    concat("c", digits.as_str())
}

/// The variable term with the given name.
pub open spec fn spec_variable(name: Seq<char>) -> SpecTerm {
    SpecTerm::Variable { name }
}

/// `[t].*`: the term pushed as a value before the skip choice.
pub open spec fn spec_as_expression(t: SpecTerm) -> SpecTerm {
    SpecTerm::Application {
        function: Box::new(SpecTerm::Choice(spec_skip())),
        argument: Box::new(t),
        location: SpecLocation::Main,
    }
}

/// The identity `<x>.x` on the main stack.
pub open spec fn spec_identity(x: Seq<char>) -> SpecTerm {
    SpecTerm::Abstraction {
        binds: x,
        term: Box::new(spec_variable(x)),
        location: SpecLocation::Main,
    }
}

/// Church's true `<x>.<y>.x` and false `<x>.<y>.y`.
pub open spec fn spec_church(x: Seq<char>, y: Seq<char>, first: bool) -> SpecTerm {
    SpecTerm::Abstraction {
        binds: x,
        term: Box::new(
            SpecTerm::Abstraction {
                binds: y,
                term: Box::new(spec_variable(if first { x } else { y })),
                location: SpecLocation::Main,
            },
        ),
        location: SpecLocation::Main,
    }
}

/// The fixed-point combinator `<f>.(<x>.[[x].x].f) (<x>.[[x].x].f)`.
pub open spec fn spec_y(f: Seq<char>, x: Seq<char>) -> SpecTerm {
    let inner = SpecTerm::Abstraction {
        binds: x,
        term: Box::new(
            SpecTerm::Application {
                function: Box::new(spec_variable(f)),
                argument: Box::new(
                    SpecTerm::Application {
                        function: Box::new(spec_variable(x)),
                        argument: Box::new(spec_variable(x)),
                        location: SpecLocation::Main,
                    },
                ),
                location: SpecLocation::Main,
            },
        ),
        location: SpecLocation::Main,
    };
    SpecTerm::Abstraction {
        binds: f,
        term: Box::new(
            SpecTerm::Application {
                function: Box::new(inner),
                argument: Box::new(inner),
                location: SpecLocation::Main,
            },
        ),
        location: SpecLocation::Main,
    }
}

impl Term {
    /// Church encoding of true.
    pub fn church_true(names: &mut NameSupply) -> (r: Term)
        ensures
            r@ == spec_church(
                spec_var_name(old(names).next_var),
                spec_var_name(spec_next(old(names).next_var)),
                true,
            ),
            final(names).next_var == spec_next(spec_next(old(names).next_var)),
            final(names).next_location == old(names).next_location,
    {
        proof {
            reveal_with_fuel(term_view, 5);
        }
        let x = fresh_var(names);
        let y = fresh_var(names);
        Term::Abstraction {
            binds: x.clone(),
            term: Box::new(
                Term::Abstraction {
                    binds: y,
                    term: Box::new(Term::Variable { name: x }),
                    location: Location::Main,
                },
            ),
            location: Location::Main,
        }
    }

    /// Church encoding of false.
    pub fn church_false(names: &mut NameSupply) -> (r: Term)
        ensures
            r@ == spec_church(
                spec_var_name(old(names).next_var),
                spec_var_name(spec_next(old(names).next_var)),
                false,
            ),
            final(names).next_var == spec_next(spec_next(old(names).next_var)),
            final(names).next_location == old(names).next_location,
    {
        proof {
            reveal_with_fuel(term_view, 5);
        }
        let x = fresh_var(names);
        let y = fresh_var(names);
        Term::Abstraction {
            binds: x,
            term: Box::new(
                Term::Abstraction {
                    binds: y.clone(),
                    term: Box::new(Term::Variable { name: y }),
                    location: Location::Main,
                },
            ),
            location: Location::Main,
        }
    }

    /// The identity abstraction over a fresh variable.
    pub fn id(names: &mut NameSupply) -> (r: Term)
        ensures
            r@ == spec_identity(spec_var_name(old(names).next_var)),
            final(names).next_var == spec_next(old(names).next_var),
            final(names).next_location == old(names).next_location,
    {
        proof {
            reveal_with_fuel(term_view, 5);
        }
        let fresh = fresh_var(names);
        Term::Abstraction {
            binds: fresh.clone(),
            term: Box::new(Term::Variable { name: fresh }),
            location: Location::Main,
        }
    }

    /// The fixed-point combinator over fresh variables.
    pub fn y(names: &mut NameSupply) -> (r: Term)
        ensures
            r@ == spec_y(
                spec_var_name(old(names).next_var),
                spec_var_name(spec_next(old(names).next_var)),
            ),
            final(names).next_var == spec_next(spec_next(old(names).next_var)),
            final(names).next_location == old(names).next_location,
    {
        proof {
            reveal_with_fuel(term_view, 5);
        }
        let f = fresh_var(names);
        let x = fresh_var(names);
        let inner = Term::Abstraction {
            binds: x.clone(),
            term: Box::new(
                Term::Application {
                    function: Box::new(Term::Variable { name: f.clone() }),
                    argument: Box::new(
                        Term::Application {
                            function: Box::new(Term::Variable { name: x.clone() }),
                            argument: Box::new(Term::Variable { name: x.clone() }),
                            location: Location::Main,
                        },
                    ),
                    location: Location::Main,
                },
            ),
            location: Location::Main,
        };
        Term::Abstraction {
            binds: f.clone(),
            term: Box::new(
                Term::Application {
                    function: Box::new(inner.clone()),
                    argument: Box::new(inner),
                    location: Location::Main,
                },
            ),
            location: Location::Main,
        }
    }

    /// `[self].*`: pushes the term as a value.
    pub fn as_expression(self) -> (r: Term)
        ensures
            r@ == spec_as_expression(self@),
    {
        proof {
            reveal_with_fuel(term_view, 2);
        }
        Term::Application {
            function: Box::new(Term::Choice(Choice::skip())),
            argument: Box::new(self),
            location: Location::Main,
        }
    }
}

} // verus!

verus! {

/// Whether a term holds no operation node.
pub open spec fn spec_no_ops(t: SpecTerm) -> bool
    decreases t,
{
    match t {
        SpecTerm::Operation(_) => false,
        SpecTerm::Application { function, argument, .. } => spec_no_ops(*function) && spec_no_ops(
            *argument,
        ),
        SpecTerm::Abstraction { term, .. } => spec_no_ops(*term),
        SpecTerm::Case { term, then, .. } => spec_no_ops(*term) && spec_no_ops(*then),
        SpecTerm::Loop { term, .. } => spec_no_ops(*term),
        _ => true,
    }
}

/// Whether a name has an occurrence in a term that no binder of that name lies over.
pub open spec fn spec_occurs_free(t: SpecTerm, n: Seq<char>) -> bool
    decreases t,
{
    match t {
        SpecTerm::Variable { name } => name == n,
        SpecTerm::Abstraction { binds, term, .. } => binds != n && spec_occurs_free(*term, n),
        SpecTerm::Application { function, argument, .. } => spec_occurs_free(*function, n)
            || spec_occurs_free(*argument, n),
        SpecTerm::Case { term, then, .. } => spec_occurs_free(*term, n) || spec_occurs_free(
            *then,
            n,
        ),
        SpecTerm::Loop { term, .. } => spec_occurs_free(*term, n),
        _ => false,
    }
}

/// The free-variable collection: walks the term left to right, adding to `acc` each
/// variable occurrence that no binder of its name lies over.
pub open spec fn spec_collect_free(t: SpecTerm, acc: Seq<Seq<char>>) -> Seq<Seq<char>>
    decreases t,
{
    match t {
        SpecTerm::Variable { name } => spec_insert(acc, name),
        SpecTerm::Abstraction { binds, term, .. } => spec_merge(
            acc,
            spec_remove(spec_collect_free(*term, Seq::empty()), binds),
        ),
        SpecTerm::Application { function, argument, .. } => spec_collect_free(
            *argument,
            spec_collect_free(*function, acc),
        ),
        SpecTerm::Case { term, then, .. } => spec_collect_free(*then, spec_collect_free(*term, acc)),
        SpecTerm::Loop { term, .. } => spec_collect_free(*term, acc),
        _ => acc,
    }
}

/// The free variables of a term, in the order in which they are collected.
pub open spec fn spec_free_variables(t: SpecTerm) -> Seq<Seq<char>> {
    spec_collect_free(t, Seq::empty())
}

/// The binder collection: every name bound by an abstraction, in pre-order.
pub open spec fn spec_collect_bound(t: SpecTerm, acc: Seq<Seq<char>>) -> Seq<Seq<char>>
    decreases t,
{
    match t {
        SpecTerm::Abstraction { binds, term, .. } => spec_collect_bound(
            *term,
            spec_insert(acc, binds),
        ),
        SpecTerm::Application { function, argument, .. } => spec_collect_bound(
            *argument,
            spec_collect_bound(*function, acc),
        ),
        SpecTerm::Case { term, then, .. } => spec_collect_bound(
            *then,
            spec_collect_bound(*term, acc),
        ),
        SpecTerm::Loop { term, .. } => spec_collect_bound(*term, acc),
        _ => acc,
    }
}

/// The variables bound in a term, in pre-order of their first binder.
pub open spec fn spec_bound_variables(t: SpecTerm) -> Seq<Seq<char>> {
    spec_collect_bound(t, Seq::empty())
}

/// Every occurrence of the name `from`, bound or free, renamed to `to`
/// (operations are left untouched).
pub open spec fn spec_rename_variable(t: SpecTerm, from: Seq<char>, to: Seq<char>) -> SpecTerm
    decreases t,
{
    match t {
        SpecTerm::Variable { name } => if name == from {
            spec_variable(to)
        } else {
            t
        },
        SpecTerm::Abstraction { binds, term, location } => SpecTerm::Abstraction {
            binds: if binds == from {
                to
            } else {
                binds
            },
            term: Box::new(spec_rename_variable(*term, from, to)),
            location,
        },
        SpecTerm::Application { function, argument, location } => SpecTerm::Application {
            function: Box::new(spec_rename_variable(*function, from, to)),
            argument: Box::new(spec_rename_variable(*argument, from, to)),
            location,
        },
        SpecTerm::Case { term, exit, then } => SpecTerm::Case {
            term: Box::new(spec_rename_variable(*term, from, to)),
            exit,
            then: Box::new(spec_rename_variable(*then, from, to)),
        },
        SpecTerm::Loop { term, branch } => SpecTerm::Loop {
            term: Box::new(spec_rename_variable(*term, from, to)),
            branch,
        },
        _ => t,
    }
}

/// The location collection: the location of every abstraction and application, in pre-order,
/// each once.
pub open spec fn spec_collect_locations(t: SpecTerm, acc: Seq<SpecLocation>) -> Seq<SpecLocation>
    decreases t,
{
    match t {
        SpecTerm::Abstraction { term, location, .. } => spec_collect_locations(
            *term,
            spec_insert(acc, location),
        ),
        SpecTerm::Application { function, argument, location } => spec_collect_locations(
            *argument,
            spec_collect_locations(*function, spec_insert(acc, location)),
        ),
        SpecTerm::Case { term, then, .. } => spec_collect_locations(
            *then,
            spec_collect_locations(*term, acc),
        ),
        SpecTerm::Loop { term, .. } => spec_collect_locations(*term, acc),
        _ => acc,
    }
}

/// All the locations that a term mentions on its abstractions and applications.
pub open spec fn spec_all_locations(t: SpecTerm) -> Seq<SpecLocation> {
    spec_collect_locations(t, Seq::empty())
}

/// How a location is rewritten by a renaming of cells, of locals, or by turning cells
/// into locals.
pub open spec fn spec_relocate(l: SpecLocation, kind: nat, from: Seq<char>, to: Seq<char>) -> SpecLocation {
    match l {
        SpecLocation::Cell(c) => if kind == 0 && c == from {
            SpecLocation::Cell(to)
        } else if kind == 2 {
            SpecLocation::Local(c)
        } else {
            l
        },
        SpecLocation::Local(c) => if kind == 1 && c == from {
            SpecLocation::Local(to)
        } else {
            l
        },
        _ => l,
    }
}

/// Rewrites the location of every abstraction and application (`kind` 0: cell `from`
/// renamed to `to`; 1: local `from` renamed to `to`; 2: every cell made a local).
pub open spec fn spec_relocate_term(t: SpecTerm, kind: nat, from: Seq<char>, to: Seq<char>) -> SpecTerm
    decreases t,
{
    match t {
        SpecTerm::Application { function, argument, location } => SpecTerm::Application {
            function: Box::new(spec_relocate_term(*function, kind, from, to)),
            argument: Box::new(spec_relocate_term(*argument, kind, from, to)),
            location: spec_relocate(location, kind, from, to),
        },
        SpecTerm::Abstraction { binds, term, location } => SpecTerm::Abstraction {
            binds,
            term: Box::new(spec_relocate_term(*term, kind, from, to)),
            location: spec_relocate(location, kind, from, to),
        },
        SpecTerm::Case { term, exit, then } => SpecTerm::Case {
            term: Box::new(spec_relocate_term(*term, kind, from, to)),
            exit,
            then: Box::new(spec_relocate_term(*then, kind, from, to)),
        },
        SpecTerm::Loop { term, branch } => SpecTerm::Loop {
            term: Box::new(spec_relocate_term(*term, kind, from, to)),
            branch,
        },
        _ => t,
    }
}

/// Walks a term for its free variables.
fn collect_free(t: &Term, free: &mut Vec<String>)
    requires
        spec_no_ops(t@),
    ensures
        final(free).deep_view() == spec_collect_free(t@, old(free).deep_view()),
    decreases t,
{
    match t {
        Term::Variable { name } => {
            names_insert(free, name.clone());
        },
        Term::Abstraction { binds, term, .. } => {
            let mut inner: Vec<String> = Vec::new();
            assert(inner.deep_view() =~= Seq::<Seq<char>>::empty());
            collect_free(term, &mut inner);
            let kept = names_remove(&inner, binds.as_str());
            names_merge(free, &kept);
        },
        Term::Application { function, argument, .. } => {
            collect_free(function, free);
            collect_free(argument, free);
        },
        Term::Operation(_) => {},
        Term::Choice(_) => {},
        Term::Case { term, then, .. } => {
            collect_free(term, free);
            collect_free(then, free);
        },
        Term::Loop { term, .. } => {
            collect_free(term, free);
        },
        Term::Special(_) => {},
    }
}

/// Walks a term for its bound variables.
fn collect_bound(t: &Term, bound: &mut Vec<String>)
    ensures
        final(bound).deep_view() == spec_collect_bound(t@, old(bound).deep_view()),
    decreases t,
{
    match t {
        Term::Abstraction { binds, term, .. } => {
            names_insert(bound, binds.clone());
            collect_bound(term, bound);
        },
        Term::Application { function, argument, .. } => {
            collect_bound(function, bound);
            collect_bound(argument, bound);
        },
        Term::Case { term, then, .. } => {
            collect_bound(term, bound);
            collect_bound(then, bound);
        },
        Term::Loop { term, .. } => collect_bound(term, bound),
        _ => {},
    }
}

/// Walks a term for its locations.
fn collect_locations(t: &Term, locations: &mut Vec<Location>)
    ensures
        locations_view(final(locations)@) == spec_collect_locations(
            t@,
            locations_view(old(locations)@),
        ),
    decreases t,
{
    match t {
        Term::Abstraction { term, location, .. } => {
            locations_insert(locations, location.clone());
            collect_locations(term, locations);
        },
        Term::Application { function, argument, location } => {
            locations_insert(locations, location.clone());
            collect_locations(function, locations);
            collect_locations(argument, locations);
        },
        Term::Case { term, then, .. } => {
            collect_locations(term, locations);
            collect_locations(then, locations);
        },
        Term::Loop { term, .. } => {
            collect_locations(term, locations);
        },
        _ => {},
    }
}

/// Rewrites one location (see `spec_relocate`).
fn relocate(l: &Location, kind: u8, from: &str, to: &str) -> (r: Location)
    requires
        kind <= 2,
    ensures
        r@ == spec_relocate(l@, kind as nat, from@, to@),
{
    match l {
        Location::Cell(c) => {
            if kind == 0 && text_eq(c.as_str(), from) {
                Location::Cell(crate::text::owned(to))
            } else if kind == 2 {
                Location::Local(c.clone())
            } else {
                l.clone()
            }
        },
        Location::Local(c) => {
            if kind == 1 && text_eq(c.as_str(), from) {
                Location::Local(crate::text::owned(to))
            } else {
                l.clone()
            }
        },
        _ => l.clone(),
    }
}

/// Rewrites every location of a term (see `spec_relocate_term`).
fn relocate_term(t: &Term, kind: u8, from: &str, to: &str) -> (r: Term)
    requires
        kind <= 2,
    ensures
        r@ == spec_relocate_term(t@, kind as nat, from@, to@),
    decreases t,
{
    match t {
        Term::Application { function, argument, location } => Term::Application {
            function: Box::new(relocate_term(function, kind, from, to)),
            argument: Box::new(relocate_term(argument, kind, from, to)),
            location: relocate(location, kind, from, to),
        },
        Term::Abstraction { binds, term, location } => Term::Abstraction {
            binds: binds.clone(),
            term: Box::new(relocate_term(term, kind, from, to)),
            location: relocate(location, kind, from, to),
        },
        Term::Case { term, exit, then } => Term::Case {
            term: Box::new(relocate_term(term, kind, from, to)),
            exit: exit.clone(),
            then: Box::new(relocate_term(then, kind, from, to)),
        },
        Term::Loop { term, branch } => Term::Loop {
            term: Box::new(relocate_term(term, kind, from, to)),
            branch: branch.clone(),
        },
        _ => t.clone(),
    }
}

impl Term {
    /// Computes the free variables in a term.
    pub fn free_variables(&self) -> (r: Vec<String>)
        requires
            spec_no_ops(self@),
        ensures
            r.deep_view() == spec_free_variables(self@),
    {
        let mut all_frees: Vec<String> = Vec::new();
        assert(all_frees.deep_view() =~= Seq::<Seq<char>>::empty());
        collect_free(self, &mut all_frees);
        all_frees
    }

    /// The variables that the term's abstractions bind.
    pub fn get_bound_variables(&self) -> (r: Vec<String>)
        ensures
            r.deep_view() == spec_bound_variables(self@),
    {
        let mut bound: Vec<String> = Vec::new();
        assert(bound.deep_view() =~= Seq::<Seq<char>>::empty());
        collect_bound(self, &mut bound);
        bound
    }

    /// Renames every occurrence of a variable name, bound or free.
    pub fn rename_variable(&self, from: &str, to: &str) -> (r: Term)
        ensures
            r@ == spec_rename_variable(self@, from@, to@),
        decreases self,
    {
        match self {
            Term::Variable { name } => {
                if text_eq(name.as_str(), from) {
                    Term::Variable { name: crate::text::owned(to) }
                } else {
                    self.clone()
                }
            },
            Term::Abstraction { binds, term, location } => {
                if text_eq(binds.as_str(), from) {
                    Term::Abstraction {
                        binds: crate::text::owned(to),
                        term: Box::new(term.rename_variable(from, to)),
                        location: location.clone(),
                    }
                } else {
                    Term::Abstraction {
                        binds: binds.clone(),
                        term: Box::new(term.rename_variable(from, to)),
                        location: location.clone(),
                    }
                }
            },
            Term::Application { function, argument, location } => Term::Application {
                function: Box::new(function.rename_variable(from, to)),
                argument: Box::new(argument.rename_variable(from, to)),
                location: location.clone(),
            },
            Term::Case { term, exit, then } => Term::Case {
                term: Box::new(term.rename_variable(from, to)),
                exit: exit.clone(),
                then: Box::new(then.rename_variable(from, to)),
            },
            Term::Loop { term, branch } => Term::Loop {
                term: Box::new(term.rename_variable(from, to)),
                branch: branch.clone(),
            },
            _ => self.clone(),
        }
    }

    /// The locations that the term's abstractions and applications use, each once.
    pub fn get_all_locations(&self) -> (r: Vec<Location>)
        ensures
            locations_view(r@) == spec_all_locations(self@),
    {
        let mut all_locations: Vec<Location> = Vec::new();
        assert(locations_view(all_locations@) =~= Seq::<SpecLocation>::empty());
        collect_locations(self, &mut all_locations);
        all_locations
    }

    /// Renames the cell `from` to `to` wherever it is used as a location.
    pub fn rename_cells(&self, from: String, to: String) -> (r: Term)
        ensures
            r@ == spec_relocate_term(self@, 0, from@, to@),
    {
        relocate_term(self, 0, from.as_str(), to.as_str())
    }

    /// Turns every cell location into the local location of the same name.
    pub fn switch_cell_to_local(&self) -> (r: Term)
        ensures
            r@ == spec_relocate_term(self@, 2, Seq::empty(), Seq::empty()),
    {
        proof {
            reveal_strlit("");
            assert(""@ =~= Seq::<char>::empty());
        }
        relocate_term(self, 2, "", "")
    }

    /// Renames the local `from` to `to` wherever it is used as a location.
    pub fn rename_locals(&self, from: String, to: String) -> (r: Term)
        ensures
            r@ == spec_relocate_term(self@, 1, from@, to@),
    {
        relocate_term(self, 1, from.as_str(), to.as_str())
    }
}

} // verus!

verus! {

/// The number of nodes of a term (an operation counts as one node).
pub open spec fn spec_size(t: SpecTerm) -> nat
    decreases t,
{
    match t {
        SpecTerm::Application { function, argument, .. } => 1 + spec_size(*function) + spec_size(
            *argument,
        ),
        SpecTerm::Abstraction { term, .. } => 1 + spec_size(*term),
        SpecTerm::Case { term, then, .. } => 1 + spec_size(*term) + spec_size(*then),
        SpecTerm::Loop { term, .. } => 1 + spec_size(*term),
        _ => 1,
    }
}

/// Capture-avoiding substitution of `w` for the free occurrences of `v` in `t`, drawing
/// fresh names from the counter `n`; `None` where the substitution meets an operation.
/// `fuel` bounds the recursion; any fuel at least the size of `t` gives the same result.
pub open spec fn spec_subst_fuel(
    t: SpecTerm,
    v: Seq<char>,
    w: SpecTerm,
    n: u64,
    fuel: nat,
) -> Option<(SpecTerm, u64)>
    decreases fuel,
{
    if fuel == 0 {
        None
    } else {
        match t {
            SpecTerm::Variable { name } => if name == v {
                Some((w, n))
            } else {
                Some((t, n))
            },
            SpecTerm::Abstraction { binds, term, location } => {
                if binds == v {
                    Some((t, n))
                } else if !spec_no_ops(w) {
                    None
                } else if spec_free_variables(w).contains(binds) {
                    let fresh = spec_fresh_binder(n, *term, w, v);
                    match spec_subst_fuel(
                        *term,
                        binds,
                        spec_variable(fresh),
                        spec_next(n),
                        (fuel - 1) as nat,
                    ) {
                        Some((renamed, n1)) => match spec_subst_fuel(
                            renamed,
                            v,
                            w,
                            n1,
                            (fuel - 1) as nat,
                        ) {
                            Some((body, n2)) => Some(
                                (
                                    SpecTerm::Abstraction {
                                        binds: fresh,
                                        term: Box::new(body),
                                        location,
                                    },
                                    n2,
                                ),
                            ),
                            None => None,
                        },
                        None => None,
                    }
                } else {
                    match spec_subst_fuel(*term, v, w, n, (fuel - 1) as nat) {
                        Some((body, n1)) => Some(
                            (SpecTerm::Abstraction { binds, term: Box::new(body), location }, n1),
                        ),
                        None => None,
                    }
                }
            },
            SpecTerm::Application { function, argument, location } => match spec_subst_fuel(
                *function,
                v,
                w,
                n,
                (fuel - 1) as nat,
            ) {
                Some((f, n1)) => match spec_subst_fuel(*argument, v, w, n1, (fuel - 1) as nat) {
                    Some((a, n2)) => Some(
                        (
                            SpecTerm::Application {
                                function: Box::new(f),
                                argument: Box::new(a),
                                location,
                            },
                            n2,
                        ),
                    ),
                    None => None,
                },
                None => None,
            },
            SpecTerm::Operation(_) => None,
            SpecTerm::Case { term, exit, then } => match spec_subst_fuel(
                *term,
                v,
                w,
                n,
                (fuel - 1) as nat,
            ) {
                Some((m, n1)) => match spec_subst_fuel(*then, v, w, n1, (fuel - 1) as nat) {
                    Some((k, n2)) => Some(
                        (SpecTerm::Case { term: Box::new(m), exit, then: Box::new(k) }, n2),
                    ),
                    None => None,
                },
                None => None,
            },
            SpecTerm::Loop { term, branch } => match spec_subst_fuel(
                *term,
                v,
                w,
                n,
                (fuel - 1) as nat,
            ) {
                Some((m, n1)) => Some((SpecTerm::Loop { term: Box::new(m), branch }, n1)),
                None => None,
            },
            _ => Some((t, n)),
        }
    }
}

/// Capture-avoiding substitution (see `spec_subst_fuel`).
pub open spec fn spec_substitute(t: SpecTerm, v: Seq<char>, w: SpecTerm, n: u64) -> Option<
    (SpecTerm, u64),
> {
    spec_subst_fuel(t, v, w, n, spec_size(t))
}

/// Substituting a variable for a variable keeps the size of a term.
pub proof fn lemma_subst_variable_size(t: SpecTerm, x: Seq<char>, y: Seq<char>, n: u64, fuel: nat)
    requires
        fuel >= spec_size(t),
    ensures
        spec_subst_fuel(t, x, spec_variable(y), n, fuel) matches Some((r, _)) ==> spec_size(r)
            == spec_size(t),
    decreases spec_size(t),
{
    let w = spec_variable(y);
    match t {
        SpecTerm::Abstraction { binds, term, location } => {
            if binds != x && spec_no_ops(w) {
                if spec_free_variables(w).contains(binds) {
                    let fresh = spec_fresh_binder(n, *term, w, x);
                    lemma_subst_variable_size(*term, binds, fresh, spec_next(n), (fuel - 1) as nat);
                    match spec_subst_fuel(
                        *term,
                        binds,
                        spec_variable(fresh),
                        spec_next(n),
                        (fuel - 1) as nat,
                    ) {
                        Some((renamed, n1)) => {
                            lemma_subst_variable_size(renamed, x, y, n1, (fuel - 1) as nat);
                        },
                        None => {},
                    }
                } else {
                    lemma_subst_variable_size(*term, x, y, n, (fuel - 1) as nat);
                }
            }
        },
        SpecTerm::Application { function, argument, location } => {
            lemma_subst_variable_size(*function, x, y, n, (fuel - 1) as nat);
            match spec_subst_fuel(*function, x, w, n, (fuel - 1) as nat) {
                Some((f, n1)) => {
                    lemma_subst_variable_size(*argument, x, y, n1, (fuel - 1) as nat);
                },
                None => {},
            }
        },
        SpecTerm::Case { term, exit, then } => {
            lemma_subst_variable_size(*term, x, y, n, (fuel - 1) as nat);
            match spec_subst_fuel(*term, x, w, n, (fuel - 1) as nat) {
                Some((m, n1)) => {
                    lemma_subst_variable_size(*then, x, y, n1, (fuel - 1) as nat);
                },
                None => {},
            }
        },
        SpecTerm::Loop { term, branch } => {
            lemma_subst_variable_size(*term, x, y, n, (fuel - 1) as nat);
        },
        _ => {},
    }
}

/// Any fuel at least the size of the term gives the same substitution.
pub proof fn lemma_subst_fuel(t: SpecTerm, v: Seq<char>, w: SpecTerm, n: u64, f1: nat, f2: nat)
    requires
        f1 >= spec_size(t),
        f2 >= spec_size(t),
    ensures
        spec_subst_fuel(t, v, w, n, f1) == spec_subst_fuel(t, v, w, n, f2),
    decreases spec_size(t),
{
    match t {
        SpecTerm::Abstraction { binds, term, location } => {
            if binds != v && spec_no_ops(w) {
                if spec_free_variables(w).contains(binds) {
                    let fresh = spec_fresh_binder(n, *term, w, v);
                    lemma_subst_fuel(
                        *term,
                        binds,
                        spec_variable(fresh),
                        spec_next(n),
                        (f1 - 1) as nat,
                        (f2 - 1) as nat,
                    );
                    lemma_subst_variable_size(*term, binds, fresh, spec_next(n), (f1 - 1) as nat);
                    match spec_subst_fuel(
                        *term,
                        binds,
                        spec_variable(fresh),
                        spec_next(n),
                        (f1 - 1) as nat,
                    ) {
                        Some((renamed, n1)) => {
                            lemma_subst_fuel(renamed, v, w, n1, (f1 - 1) as nat, (f2 - 1) as nat);
                        },
                        None => {},
                    }
                } else {
                    lemma_subst_fuel(*term, v, w, n, (f1 - 1) as nat, (f2 - 1) as nat);
                }
            }
        },
        SpecTerm::Application { function, argument, location } => {
            lemma_subst_fuel(*function, v, w, n, (f1 - 1) as nat, (f2 - 1) as nat);
            match spec_subst_fuel(*function, v, w, n, (f1 - 1) as nat) {
                Some((f, n1)) => {
                    lemma_subst_fuel(*argument, v, w, n1, (f1 - 1) as nat, (f2 - 1) as nat);
                },
                None => {},
            }
        },
        SpecTerm::Case { term, exit, then } => {
            lemma_subst_fuel(*term, v, w, n, (f1 - 1) as nat, (f2 - 1) as nat);
            match spec_subst_fuel(*term, v, w, n, (f1 - 1) as nat) {
                Some((m, n1)) => {
                    lemma_subst_fuel(*then, v, w, n1, (f1 - 1) as nat, (f2 - 1) as nat);
                },
                None => {},
            }
        },
        SpecTerm::Loop { term, branch } => {
            lemma_subst_fuel(*term, v, w, n, (f1 - 1) as nat, (f2 - 1) as nat);
        },
        _ => {},
    }
}

impl Term {
    /// Performs capture-avoiding substitution of `with` for the free occurrences of
    /// `variable`; a binder that would capture a free variable of `with` is renamed to a
    /// fresh name first.
    pub fn substitute(&self, variable: &str, with: Term, names: &mut NameSupply) -> (r: Term)
        requires
            spec_substitute(self@, variable@, with@, old(names).next_var) is Some,
        ensures
            spec_substitute(self@, variable@, with@, old(names).next_var) == Some(
                (r@, final(names).next_var),
            ),
            final(names).next_location == old(names).next_location,
        decreases spec_size(self@),
    {
        let ghost n = names.next_var;
        let ghost fuel = spec_size(self@);
        match self {
            Term::Variable { name } => {
                if text_eq(name.as_str(), variable) {
                    with
                } else {
                    self.clone()
                }
            },
            Term::Abstraction { binds, term, location } => {
                proof {
                    lemma_subst_fuel(term@, variable@, with@, n, (fuel - 1) as nat, spec_size(term@));
                }
                if text_eq(binds.as_str(), variable) {
                    self.clone()
                } else if names_contains_fv(&with, binds.as_str()) {
                    let new_binds = fresh_binder(names, term, &with, variable);
                    let ghost n1 = names.next_var;
                    proof {
                        lemma_subst_fuel(
                            term@,
                            binds@,
                            spec_variable(new_binds@),
                            n1,
                            (fuel - 1) as nat,
                            spec_size(term@),
                        );
                        lemma_subst_variable_size(term@, binds@, new_binds@, n1, spec_size(term@));
                    }
                    let capture_avoiding = term.substitute(
                        binds.as_str(),
                        Term::Variable { name: new_binds.clone() },
                        names,
                    );
                    proof {
                        lemma_subst_fuel(
                            capture_avoiding@,
                            variable@,
                            with@,
                            names.next_var,
                            (fuel - 1) as nat,
                            spec_size(capture_avoiding@),
                        );
                    }
                    Term::Abstraction {
                        binds: new_binds,
                        term: Box::new(capture_avoiding.substitute(variable, with, names)),
                        location: location.clone(),
                    }
                } else {
                    Term::Abstraction {
                        binds: binds.clone(),
                        term: Box::new(term.substitute(variable, with, names)),
                        location: location.clone(),
                    }
                }
            },
            Term::Application { function, argument, location } => {
                proof {
                    lemma_subst_fuel(function@, variable@, with@, n, (fuel - 1) as nat, spec_size(function@));
                }
                let f = function.substitute(variable, with.clone(), names);
                proof {
                    lemma_subst_fuel(
                        argument@,
                        variable@,
                        with@,
                        names.next_var,
                        (fuel - 1) as nat,
                        spec_size(argument@),
                    );
                }
                let a = argument.substitute(variable, with, names);
                Term::Application { function: Box::new(f), argument: Box::new(a), location: location.clone() }
            },
            Term::Operation(_) => {
                proof {
                    assert(false);
                }
                self.clone()
            },
            Term::Choice(_) => self.clone(),
            Term::Case { term, exit, then } => {
                proof {
                    lemma_subst_fuel(term@, variable@, with@, n, (fuel - 1) as nat, spec_size(term@));
                }
                let m = term.substitute(variable, with.clone(), names);
                proof {
                    lemma_subst_fuel(
                        then@,
                        variable@,
                        with@,
                        names.next_var,
                        (fuel - 1) as nat,
                        spec_size(then@),
                    );
                }
                let k = then.substitute(variable, with, names);
                Term::Case { term: Box::new(m), exit: exit.clone(), then: Box::new(k) }
            },
            Term::Loop { term, branch } => {
                proof {
                    lemma_subst_fuel(term@, variable@, with@, n, (fuel - 1) as nat, spec_size(term@));
                }
                Term::Loop { term: Box::new(term.substitute(variable, with, names)), branch: branch.clone() }
            },
            Term::Special(_) => self.clone(),
        }
    }
}

/// Whether `name` is a free variable of `t`.
fn names_contains_fv(t: &Term, name: &str) -> (r: bool)
    requires
        spec_no_ops(t@),
    ensures
        r == spec_free_variables(t@).contains(name@),
{
    let free = t.free_variables();
    crate::fmc_core::names::names_contains(&free, name)
}

} // verus!

verus! {

/// The values of a list of terms.
pub open spec fn terms_view(v: Seq<Term>) -> Seq<SpecTerm> {
    Seq::new(v.len(), |i: int| v[i]@)
}

/// The value of an optional term.
pub open spec fn option_view(r: Option<Term>) -> Option<SpecTerm> {
    match r {
        Some(t) => Some(t@),
        None => None,
    }
}

/// Renames the binder of an abstraction that is about to be moved over `other` when `other`
/// has it free: the fresh binder and the renamed body, or the binder and body unchanged.
/// `None` where `other` holds an operation or the renaming meets one.
pub open spec fn spec_rebind(binds: Seq<char>, body: SpecTerm, other: SpecTerm, n: u64) -> Option<
    (Seq<char>, SpecTerm, u64),
> {
    if !spec_no_ops(other) {
        None
    } else if spec_free_variables(other).contains(binds) {
        let fresh = spec_fresh_binder(n, body, other, binds);
        match spec_substitute(body, binds, spec_variable(fresh), spec_next(n)) {
            Some((renamed, n1)) => Some((fresh, renamed, n1)),
            None => None,
        }
    } else {
        Some((binds, body, n))
    }
}

/// One computation step at the root: a case on a choice selects its branch or passes the
/// choice on; an application of an abstraction on the same location substitutes.
/// `Some((None, _))` where no such step applies; `None` where the step meets an operation.
pub open spec fn spec_compute_reduce(t: SpecTerm, n: u64) -> Option<(Option<SpecTerm>, u64)> {
    match t {
        SpecTerm::Case { term, exit, then } => match *term {
            SpecTerm::Choice(c) => Some(
                (
                    Some(
                        if c == exit {
                            *then
                        } else {
                            *term
                        },
                    ),
                    n,
                ),
            ),
            _ => Some((None, n)),
        },
        SpecTerm::Application { function, argument, location } => match *function {
            SpecTerm::Abstraction { binds, term: body, location: l2 } => if location == l2 {
                match spec_substitute(*body, binds, *argument, n) {
                    Some((r, n1)) => Some((Some(r), n1)),
                    None => None,
                }
            } else {
                Some((None, n))
            },
            _ => Some((None, n)),
        },
        _ => Some((None, n)),
    }
}

/// One structural step at the root: a case moves into an abstraction (renaming the binder
/// away from the continuation), into an application, or re-associates with an inner case of
/// the same exit; an application on a different location than its abstraction moves under it.
pub open spec fn spec_structure_reduce(t: SpecTerm, n: u64) -> Option<(Option<SpecTerm>, u64)> {
    match t {
        SpecTerm::Case { term, exit, then } => match *term {
            SpecTerm::Abstraction { binds, term: inner, location } => {
                match spec_rebind(binds, *inner, *then, n) {
                    Some((b, new_inner, n1)) => Some(
                        (
                            Some(
                                SpecTerm::Abstraction {
                                    binds: b,
                                    term: Box::new(
                                        SpecTerm::Case {
                                            term: Box::new(new_inner),
                                            exit,
                                            then,
                                        },
                                    ),
                                    location,
                                },
                            ),
                            n1,
                        ),
                    ),
                    None => None,
                }
            },
            SpecTerm::Application { function, argument, location } => Some(
                (
                    Some(
                        SpecTerm::Application {
                            function: Box::new(SpecTerm::Case { term: function, exit, then }),
                            argument,
                            location,
                        },
                    ),
                    n,
                ),
            ),
            SpecTerm::Case { term: inner_term, exit: inner_exit, then: inner_then } => {
                if exit == inner_exit {
                    Some(
                        (
                            Some(
                                SpecTerm::Case {
                                    term: inner_term,
                                    exit,
                                    then: Box::new(SpecTerm::Case { term: inner_then, exit, then }),
                                },
                            ),
                            n,
                        ),
                    )
                } else {
                    Some((None, n))
                }
            },
            _ => Some((None, n)),
        },
        SpecTerm::Application { function, argument, location } => match *function {
            SpecTerm::Abstraction { binds, term: body, location: l2 } => if location != l2 {
                match spec_rebind(binds, *body, *argument, n) {
                    Some((b, new_body, n1)) => Some(
                        (
                            Some(
                                SpecTerm::Abstraction {
                                    binds: b,
                                    term: Box::new(
                                        SpecTerm::Application {
                                            function: Box::new(new_body),
                                            argument,
                                            location,
                                        },
                                    ),
                                    location: l2,
                                },
                            ),
                            n1,
                        ),
                    ),
                    None => None,
                }
            } else {
                Some((None, n))
            },
            _ => Some((None, n)),
        },
        _ => Some((None, n)),
    }
}

/// One reduction step anywhere in the term: a computation step at the root, else a
/// structural step at the root, else a step inside (see `spec_descend_reduce`); the term
/// itself where none applies.
pub open spec fn spec_fmc_normal_reduce(t: SpecTerm, count: u32, n: u64) -> Option<(SpecTerm, u64)>
    decreases t, 1nat,
{
    match spec_compute_reduce(t, n) {
        None => None,
        Some((Some(r), n1)) => Some((r, n1)),
        Some((None, n1)) => match spec_structure_reduce(t, n1) {
            None => None,
            Some((Some(r), n2)) => Some((r, n2)),
            Some((None, n2)) => match spec_descend_reduce(t, count, n2) {
                None => None,
                Some((Some(r), n3)) => Some((r, n3)),
                Some((None, n3)) => Some((t, n3)),
            },
        },
    }
}

/// One reduction step inside the term: in an application the function first, then the
/// argument; in an abstraction its body; in a case the term first, then the continuation;
/// in a loop its body, never unrolling it.
pub open spec fn spec_descend_reduce(t: SpecTerm, count: u32, n: u64) -> Option<
    (Option<SpecTerm>, u64),
>
    decreases t, 0nat,
{
    match t {
        SpecTerm::Application { function, argument, location } => match spec_fmc_normal_reduce(
            *function,
            count,
            n,
        ) {
            None => None,
            Some((f2, n1)) => if f2 != *function {
                Some(
                    (
                        Some(
                            SpecTerm::Application { function: Box::new(f2), argument, location },
                        ),
                        n1,
                    ),
                )
            } else {
                match spec_fmc_normal_reduce(*argument, count, n1) {
                    None => None,
                    Some((a2, n2)) => if a2 != *argument {
                        Some(
                            (
                                Some(
                                    SpecTerm::Application {
                                        function,
                                        argument: Box::new(a2),
                                        location,
                                    },
                                ),
                                n2,
                            ),
                        )
                    } else {
                        Some((None, n2))
                    },
                }
            },
        },
        SpecTerm::Abstraction { binds, term, location } => match spec_fmc_normal_reduce(
            *term,
            count,
            n,
        ) {
            None => None,
            Some((t2, n1)) => if t2 != *term {
                Some((Some(SpecTerm::Abstraction { binds, term: Box::new(t2), location }), n1))
            } else {
                Some((None, n1))
            },
        },
        SpecTerm::Case { term, exit, then } => match spec_fmc_normal_reduce(*term, count, n) {
            None => None,
            Some((m2, n1)) => if m2 != *term {
                Some((Some(SpecTerm::Case { term: Box::new(m2), exit, then }), n1))
            } else {
                match spec_fmc_normal_reduce(*then, count, n1) {
                    None => None,
                    Some((k2, n2)) => if k2 != *then {
                        Some((Some(SpecTerm::Case { term, exit, then: Box::new(k2) }), n2))
                    } else {
                        Some((None, n2))
                    },
                }
            },
        },
        SpecTerm::Loop { term, branch } => match spec_fmc_normal_reduce(*term, count, n) {
            None => None,
            Some((m2, n1)) => if m2 != *term {
                Some((Some(SpecTerm::Loop { term: Box::new(m2), branch }), n1))
            } else {
                Some((None, n1))
            },
        },
        _ => Some((None, n)),
    }
}

/// Unrolls a loop once and reduces the result, while `count` is at most 2.
pub open spec fn spec_expand_reduce(t: SpecTerm, count: u32, n: u64) -> Option<(Option<SpecTerm>, u64)> {
    if count > 2 {
        Some((None, n))
    } else {
        match t {
            SpecTerm::Loop { term, branch } => {
                let unrolled = SpecTerm::Case { term, exit: branch, then: Box::new(t) };
                match spec_fmc_normal_reduce(unrolled, (count + 1) as u32, n) {
                    Some((r, n1)) => Some((Some(r), n1)),
                    None => None,
                }
            },
            _ => Some((None, n)),
        }
    }
}

/// One beta step at the root, in the style of the lambda calculus extended with cases and
/// loops: `None` at a primitive (where the step is undefined) or where it meets an operation.
pub open spec fn spec_beta_reduce(t: SpecTerm, n: u64) -> Option<(Option<SpecTerm>, u64)> {
    match t {
        SpecTerm::Application { function, argument, location } => match *function {
            SpecTerm::Abstraction { binds, term: body, location: l2 } => if location == l2 {
                match spec_substitute(*body, binds, *argument, n) {
                    Some((r, n1)) => Some((Some(r), n1)),
                    None => None,
                }
            } else {
                match spec_rebind(binds, *body, *argument, n) {
                    Some((b, new_body, n1)) => Some(
                        (
                            Some(
                                SpecTerm::Abstraction {
                                    binds: b,
                                    term: Box::new(
                                        SpecTerm::Application {
                                            function: Box::new(new_body),
                                            argument,
                                            location,
                                        },
                                    ),
                                    location: l2,
                                },
                            ),
                            n1,
                        ),
                    ),
                    None => None,
                }
            },
            _ => Some((None, n)),
        },
        SpecTerm::Case { term, exit, then } => match *term {
            SpecTerm::Choice(c) => Some(
                (
                    Some(
                        if c == exit {
                            *then
                        } else {
                            *term
                        },
                    ),
                    n,
                ),
            ),
            SpecTerm::Abstraction { binds, term: inner, location } => {
                match spec_rebind(binds, *inner, *then, n) {
                    Some((b, new_inner, n1)) => Some(
                        (
                            Some(
                                SpecTerm::Abstraction {
                                    binds: b,
                                    term: Box::new(
                                        SpecTerm::Case { term: Box::new(new_inner), exit, then },
                                    ),
                                    location,
                                },
                            ),
                            n1,
                        ),
                    ),
                    None => None,
                }
            },
            SpecTerm::Application { function, argument, location } => Some(
                (
                    Some(
                        SpecTerm::Application {
                            function: Box::new(SpecTerm::Case { term: function, exit, then }),
                            argument,
                            location,
                        },
                    ),
                    n,
                ),
            ),
            SpecTerm::Case { term: inner_term, exit: inner_exit, then: inner_then } => {
                if inner_exit == exit {
                    Some(
                        (
                            Some(
                                SpecTerm::Case {
                                    term: inner_term,
                                    exit: inner_exit,
                                    then: Box::new(
                                        SpecTerm::Case {
                                            term: inner_then,
                                            exit: inner_exit,
                                            then,
                                        },
                                    ),
                                },
                            ),
                            n,
                        ),
                    )
                } else {
                    Some((None, n))
                }
            },
            _ => Some((None, n)),
        },
        SpecTerm::Loop { term, branch } => Some(
            (
                Some(
                    SpecTerm::Case {
                        term,
                        exit: branch,
                        then: Box::new(SpecTerm::Loop { term, branch }),
                    },
                ),
                n,
            ),
        ),
        SpecTerm::Special(_) => None,
        _ => Some((None, n)),
    }
}

/// Weak head reduction: a beta step at the root, else one in the function position.
pub open spec fn spec_weak_head_reduce(t: SpecTerm, n: u64) -> Option<(SpecTerm, u64)>
    decreases t,
{
    match spec_beta_reduce(t, n) {
        None => None,
        Some((Some(r), n1)) => Some((r, n1)),
        Some((None, n1)) => match t {
            SpecTerm::Application { function, argument, location } => match spec_weak_head_reduce(
                *function,
                n1,
            ) {
                Some((f, n2)) => Some(
                    (SpecTerm::Application { function: Box::new(f), argument, location }, n2),
                ),
                None => None,
            },
            _ => Some((t, n1)),
        },
    }
}

/// Normal-order reduction step: a beta step at the root, else the leftmost step inside.
pub open spec fn spec_normal_order(t: SpecTerm, n: u64) -> Option<(SpecTerm, u64)>
    decreases t,
{
    match spec_beta_reduce(t, n) {
        None => None,
        Some((Some(r), n1)) => Some((r, n1)),
        Some((None, n1)) => match t {
            SpecTerm::Application { function, argument, location } => match spec_normal_order(
                *function,
                n1,
            ) {
                None => None,
                Some((f, n2)) => if f == *function {
                    match spec_normal_order(*argument, n2) {
                        None => None,
                        Some((a, n3)) => Some(
                            (
                                SpecTerm::Application { function, argument: Box::new(a), location },
                                n3,
                            ),
                        ),
                    }
                } else {
                    Some((SpecTerm::Application { function: Box::new(f), argument, location }, n2))
                },
            },
            SpecTerm::Abstraction { binds, term, location } => match spec_normal_order(*term, n1) {
                None => None,
                Some((b, n2)) => Some(
                    (SpecTerm::Abstraction { binds, term: Box::new(b), location }, n2),
                ),
            },
            SpecTerm::Case { term, exit, then } => match spec_normal_order(*term, n1) {
                None => None,
                Some((m, n2)) => if m == *term {
                    match spec_normal_order(*then, n2) {
                        None => None,
                        Some((k, n3)) => Some(
                            (SpecTerm::Case { term, exit, then: Box::new(k) }, n3),
                        ),
                    }
                } else {
                    Some((SpecTerm::Case { term: Box::new(m), exit, then }, n2))
                },
            },
            _ => Some((t, n1)),
        },
    }
}

/// The reduction loop: repeated reduction steps until the term no longer changes, or until
/// a thousand steps have been taken after the `count` already taken.
pub open spec fn spec_reduction_loop(t: SpecTerm, n: u64, count: nat) -> Option<(SpecTerm, u64)>
    decreases 1001 - count,
{
    if count > 1000 {
        Some((t, n))
    } else {
        match spec_fmc_normal_reduce(t, 0, n) {
            None => None,
            Some((next, n1)) => if next == t {
                Some((t, n1))
            } else if count + 1 > 1000 {
                Some((next, n1))
            } else {
                spec_reduction_loop(next, n1, count + 1)
            },
        }
    }
}

/// A term that a round of reduction leaves as it is, drawing no fresh name.
pub open spec fn spec_reduced(t: SpecTerm, n: u64) -> bool {
    spec_fmc_normal_reduce(t, 0, n) == Some((t, n))
}

/// Reducing a term that a round leaves as it is gives the term back: where a reduction
/// ends on a term that a further round leaves as it is, reducing it again changes nothing.
pub proof fn lemma_reduction_of_reduced(t: SpecTerm, n: u64)
    requires
        spec_reduced(t, n),
    ensures
        spec_reduction_loop(t, n, 0) == Some((t, n)),
{
}

/// Renames a binder away from the free variables of `other` (see `spec_rebind`).
fn rebind(binds: &String, body: &Term, other: &Term, names: &mut NameSupply) -> (r: (String, Term))
    requires
        spec_rebind(binds@, body@, other@, old(names).next_var) is Some,
    ensures
        spec_rebind(binds@, body@, other@, old(names).next_var) == Some(
            (r.0@, r.1@, final(names).next_var),
        ),
        final(names).next_location == old(names).next_location,
{
    if names_contains_fv(other, binds.as_str()) {
        let new_binds = fresh_binder(names, body, other, binds.as_str());
        let renamed = body.substitute(binds.as_str(), Term::Variable { name: new_binds.clone() }, names);
        (new_binds, renamed)
    } else {
        (binds.clone(), body.clone())
    }
}

impl Term {
    /// One computation step at the root (see `spec_compute_reduce`).
    pub fn compute_reduce(&self, names: &mut NameSupply) -> (r: Option<Term>)
        requires
            spec_compute_reduce(self@, old(names).next_var) is Some,
        ensures
            spec_compute_reduce(self@, old(names).next_var) == Some(
                (option_view(r), final(names).next_var),
            ),
            final(names).next_location == old(names).next_location,
    {
        proof {
            reveal_with_fuel(term_view, 3);
        }
        match self {
            Term::Case { term, exit, then } => match (&**term) {
                Term::Choice(choice) => {
                    if choice.same(exit) {
                        Some((&**then).clone())
                    } else {
                        Some((&**term).clone())
                    }
                },
                _ => None,
            },
            Term::Application { function, argument, location } => match (&**function) {
                Term::Abstraction { binds, term, location: l2 } => {
                    if location.same(l2) {
                        Some(term.substitute(binds.as_str(), (&**argument).clone(), names))
                    } else {
                        None
                    }
                },
                _ => None,
            },
            _ => None,
        }
    }

    /// One structural step at the root (see `spec_structure_reduce`).
    pub fn structure_reduce(&self, names: &mut NameSupply) -> (r: Option<Term>)
        requires
            spec_structure_reduce(self@, old(names).next_var) is Some,
        ensures
            spec_structure_reduce(self@, old(names).next_var) == Some(
                (option_view(r), final(names).next_var),
            ),
            final(names).next_location == old(names).next_location,
    {
        proof {
            reveal_with_fuel(term_view, 3);
        }
        match self {
            Term::Case { term, exit, then } => match (&**term) {
                Term::Abstraction { binds, term: inner_term, location } => {
                    let (new_binds, new_inner) = rebind(binds, inner_term, then, names);
                    Some(
                        Term::Abstraction {
                            binds: new_binds,
                            term: Box::new(
                                Term::Case {
                                    term: Box::new(new_inner),
                                    exit: exit.clone(),
                                    then: then.clone(),
                                },
                            ),
                            location: location.clone(),
                        },
                    )
                },
                Term::Application { function, argument, location } => Some(
                    Term::Application {
                        function: Box::new(
                            Term::Case {
                                term: function.clone(),
                                exit: exit.clone(),
                                then: then.clone(),
                            },
                        ),
                        argument: argument.clone(),
                        location: location.clone(),
                    },
                ),
                Term::Case { term: inner_term, exit: inner_exit, then: inner_then } => {
                    if exit.same(inner_exit) {
                        Some(
                            Term::Case {
                                term: inner_term.clone(),
                                exit: exit.clone(),
                                then: Box::new(
                                    Term::Case {
                                        term: inner_then.clone(),
                                        exit: exit.clone(),
                                        then: then.clone(),
                                    },
                                ),
                            },
                        )
                    } else {
                        None
                    }
                },
                _ => None,
            },
            Term::Application { function, argument, location } => match (&**function) {
                Term::Abstraction { binds, term, location: l2 } => {
                    if !location.same(l2) {
                        let (new_binds, new_term) = rebind(binds, term, argument, names);
                        Some(
                            Term::Abstraction {
                                binds: new_binds,
                                term: Box::new(
                                    Term::Application {
                                        function: Box::new(new_term),
                                        argument: argument.clone(),
                                        location: location.clone(),
                                    },
                                ),
                                location: l2.clone(),
                            },
                        )
                    } else {
                        None
                    }
                },
                _ => None,
            },
            _ => None,
        }
    }

    /// One reduction step anywhere in the term (see `spec_fmc_normal_reduce`).
    pub fn fmc_normal_reduce(&self, count: u32, names: &mut NameSupply) -> (r: Term)
        requires
            spec_fmc_normal_reduce(self@, count, old(names).next_var) is Some,
        ensures
            spec_fmc_normal_reduce(self@, count, old(names).next_var) == Some(
                (r@, final(names).next_var),
            ),
            final(names).next_location == old(names).next_location,
        decreases self, 1nat,
    {
        if let Some(reduced) = self.compute_reduce(names) {
            reduced
        } else if let Some(reduced) = self.structure_reduce(names) {
            reduced
        } else if let Some(reduced) = self.descend_reduce(count, names) {
            reduced
        } else {
            self.clone()
        }
    }

    /// One reduction step inside the term (see `spec_descend_reduce`).
    pub fn descend_reduce(&self, count: u32, names: &mut NameSupply) -> (r: Option<Term>)
        requires
            spec_descend_reduce(self@, count, old(names).next_var) is Some,
        ensures
            spec_descend_reduce(self@, count, old(names).next_var) == Some(
                (option_view(r), final(names).next_var),
            ),
            final(names).next_location == old(names).next_location,
        decreases self, 0nat,
    {
        match self {
            Term::Application { function, argument, location } => {
                let f2 = function.fmc_normal_reduce(count, names);
                if !f2.same(function) {
                    return Some(
                        Term::Application {
                            function: Box::new(f2),
                            argument: argument.clone(),
                            location: location.clone(),
                        },
                    );
                }
                let a2 = argument.fmc_normal_reduce(count, names);
                if !a2.same(argument) {
                    return Some(
                        Term::Application {
                            function: function.clone(),
                            argument: Box::new(a2),
                            location: location.clone(),
                        },
                    );
                }
                None
            },
            Term::Abstraction { binds, term, location } => {
                let t2 = term.fmc_normal_reduce(count, names);
                if !t2.same(term) {
                    return Some(
                        Term::Abstraction {
                            binds: binds.clone(),
                            term: Box::new(t2),
                            location: location.clone(),
                        },
                    );
                }
                None
            },
            Term::Case { term, exit, then } => {
                let m2 = term.fmc_normal_reduce(count, names);
                if !m2.same(term) {
                    return Some(
                        Term::Case { term: Box::new(m2), exit: exit.clone(), then: then.clone() },
                    );
                }
                let k2 = then.fmc_normal_reduce(count, names);
                if !k2.same(then) {
                    return Some(
                        Term::Case { term: term.clone(), exit: exit.clone(), then: Box::new(k2) },
                    );
                }
                None
            },
            Term::Loop { term, branch } => {
                let m2 = term.fmc_normal_reduce(count, names);
                if !m2.same(term) {
                    return Some(Term::Loop { term: Box::new(m2), branch: branch.clone() });
                }
                None
            },
            _ => None,
        }
    }

    /// Unrolls a loop once and reduces it (see `spec_expand_reduce`).
    pub fn expand_reduce(&self, count: u32, names: &mut NameSupply) -> (r: Option<Term>)
        requires
            spec_expand_reduce(self@, count, old(names).next_var) is Some,
        ensures
            spec_expand_reduce(self@, count, old(names).next_var) == Some(
                (option_view(r), final(names).next_var),
            ),
            final(names).next_location == old(names).next_location,
    {
        proof {
            reveal_with_fuel(term_view, 3);
        }
        if count > 2 {
            None
        } else {
            match self {
                Term::Loop { term, branch } => {
                    let unrolled = Term::Case {
                        term: term.clone(),
                        exit: branch.clone(),
                        then: Box::new(self.clone()),
                    };
                    Some(unrolled.fmc_normal_reduce(count + 1, names))
                },
                _ => None,
            }
        }
    }

    /// One beta step at the root (see `spec_beta_reduce`).
    pub fn beta_reduce(&self, names: &mut NameSupply) -> (r: Option<Term>)
        requires
            spec_beta_reduce(self@, old(names).next_var) is Some,
        ensures
            spec_beta_reduce(self@, old(names).next_var) == Some(
                (option_view(r), final(names).next_var),
            ),
            final(names).next_location == old(names).next_location,
    {
        proof {
            reveal_with_fuel(term_view, 3);
        }
        match self {
            Term::Application { function, argument, location } => match (&**function) {
                Term::Abstraction { binds, term, location: l2 } => {
                    if location.same(l2) {
                        Some(term.substitute(binds.as_str(), (&**argument).clone(), names))
                    } else {
                        let (new_binds, new_term) = rebind(binds, term, argument, names);
                        Some(
                            Term::Abstraction {
                                binds: new_binds,
                                term: Box::new(
                                    Term::Application {
                                        function: Box::new(new_term),
                                        argument: argument.clone(),
                                        location: location.clone(),
                                    },
                                ),
                                location: l2.clone(),
                            },
                        )
                    }
                },
                _ => None,
            },
            Term::Case { term, exit, then } => match (&**term) {
                Term::Choice(choice) => {
                    if choice.same(exit) {
                        Some((&**then).clone())
                    } else {
                        Some((&**term).clone())
                    }
                },
                Term::Abstraction { binds, term: inner, location } => {
                    let (new_binds, new_term) = rebind(binds, inner, then, names);
                    Some(
                        Term::Abstraction {
                            binds: new_binds,
                            term: Box::new(
                                Term::Case {
                                    term: Box::new(new_term),
                                    exit: exit.clone(),
                                    then: then.clone(),
                                },
                            ),
                            location: location.clone(),
                        },
                    )
                },
                Term::Application { function, argument, location } => Some(
                    Term::Application {
                        function: Box::new(
                            Term::Case {
                                term: function.clone(),
                                exit: exit.clone(),
                                then: then.clone(),
                            },
                        ),
                        argument: argument.clone(),
                        location: location.clone(),
                    },
                ),
                Term::Case { term: inner_term, exit: inner_exit, then: inner_then } => {
                    if inner_exit.same(exit) {
                        Some(
                            Term::Case {
                                term: inner_term.clone(),
                                exit: inner_exit.clone(),
                                then: Box::new(
                                    Term::Case {
                                        term: inner_then.clone(),
                                        exit: inner_exit.clone(),
                                        then: then.clone(),
                                    },
                                ),
                            },
                        )
                    } else {
                        None
                    }
                },
                _ => None,
            },
            Term::Loop { term, branch } => Some(
                Term::Case {
                    term: term.clone(),
                    exit: branch.clone(),
                    then: Box::new(Term::Loop { term: term.clone(), branch: branch.clone() }),
                },
            ),
            Term::Special(_) => {
                proof {
                    assert(false);
                }
                None
            },
            _ => None,
        }
    }

    /// Finds and reduces the next redex using weak head reduction.
    pub fn weak_head_reduce(&self, names: &mut NameSupply) -> (r: Term)
        requires
            spec_weak_head_reduce(self@, old(names).next_var) is Some,
        ensures
            spec_weak_head_reduce(self@, old(names).next_var) == Some((r@, final(names).next_var)),
            final(names).next_location == old(names).next_location,
        decreases self,
    {
        if let Some(reduced) = self.beta_reduce(names) {
            reduced
        } else {
            match self {
                Term::Application { function, argument, location } => Term::Application {
                    function: Box::new(function.weak_head_reduce(names)),
                    argument: argument.clone(),
                    location: location.clone(),
                },
                _ => self.clone(),
            }
        }
    }

    /// Finds and reduces the next redex using normal order reduction.
    pub fn normal_order(&self, names: &mut NameSupply) -> (r: Term)
        requires
            spec_normal_order(self@, old(names).next_var) is Some,
        ensures
            spec_normal_order(self@, old(names).next_var) == Some((r@, final(names).next_var)),
            final(names).next_location == old(names).next_location,
        decreases self,
    {
        if let Some(reduced) = self.beta_reduce(names) {
            reduced
        } else {
            match self {
                Term::Application { function, argument, location } => {
                    let new_function = function.normal_order(names);
                    if new_function.same(function) {
                        let new_argument = argument.normal_order(names);
                        Term::Application {
                            function: function.clone(),
                            argument: Box::new(new_argument),
                            location: location.clone(),
                        }
                    } else {
                        Term::Application {
                            function: Box::new(new_function),
                            argument: argument.clone(),
                            location: location.clone(),
                        }
                    }
                },
                Term::Abstraction { binds, term, location } => Term::Abstraction {
                    binds: binds.clone(),
                    term: Box::new(term.normal_order(names)),
                    location: location.clone(),
                },
                Term::Case { term, exit, then } => {
                    let new_term = term.normal_order(names);
                    if new_term.same(term) {
                        let new_then = then.normal_order(names);
                        Term::Case { term: term.clone(), exit: exit.clone(), then: Box::new(new_then) }
                    } else {
                        Term::Case { term: Box::new(new_term), exit: exit.clone(), then: then.clone() }
                    }
                },
                _ => self.clone(),
            }
        }
    }

    /// Reduces to normal form: repeats `fmc_normal_reduce` until the term no longer changes,
    /// for at most a thousand and one steps. The reduction order does not depend on
    /// `weak_head`.
    pub fn compute_reduction(&self, weak_head: bool, names: &mut NameSupply) -> (r: Term)
        requires
            spec_reduction_loop(self@, old(names).next_var, 0) is Some,
        ensures
            spec_reduction_loop(self@, old(names).next_var, 0) == Some((r@, final(names).next_var)),
            final(names).next_location == old(names).next_location,
    {
        let mut before = self.clone();
        let mut count: u32 = 0;
        loop
            invariant_except_break
                count <= 1000,
                spec_reduction_loop(before@, names.next_var, count as nat) == spec_reduction_loop(
                    self@,
                    old(names).next_var,
                    0,
                ),
            invariant
                names.next_location == old(names).next_location,
                spec_reduction_loop(self@, old(names).next_var, 0) is Some,
            ensures
                spec_reduction_loop(self@, old(names).next_var, 0) == Some((before@, names.next_var)),
                names.next_location == old(names).next_location,
            decreases 1000 - count,
        {
            let next = before.fmc_normal_reduce(0, names);
            if next.same(&before) {
                break;
            }
            before = next;
            count = count + 1;
            if count > 1000 {
                break;
            }
        }
        before
    }
}

} // verus!

verus! {

/// Whether `s` ends with `suffix`.
pub open spec fn spec_ends_with(s: Seq<char>, suffix: Seq<char>) -> bool {
    s.len() >= suffix.len() && s.subrange(s.len() - suffix.len(), s.len() as int) == suffix
}

/// The suffix that marks the outermost parameter of a function.
pub open spec fn spec_entry_suffix() -> Seq<char> {
    seq!['_', 'e', 'n', 't', 'r', 'y']
}

/// Renames each variable of `vars`, in order, to a fresh name (keeping the `_entry` mark of
/// the names that carry it).
pub open spec fn spec_freshen_variables_over(t: SpecTerm, vars: Seq<Seq<char>>, n: u64) -> (
    SpecTerm,
    u64,
)
    decreases vars.len(),
{
    if vars.len() == 0 {
        (t, n)
    } else {
        let v = vars[0];
        let new_name = if spec_ends_with(v, spec_entry_suffix()) {
            spec_var_name(n) + spec_entry_suffix()
        } else {
            spec_var_name(n)
        };
        spec_freshen_variables_over(spec_rename_variable(t, v, new_name), vars.drop_first(), spec_next(n))
    }
}

/// Renames each local of `locations`, in order, to a fresh location name.
pub open spec fn spec_freshen_locations_over(t: SpecTerm, locations: Seq<SpecLocation>, n: u64) -> (
    SpecTerm,
    u64,
)
    decreases locations.len(),
{
    if locations.len() == 0 {
        (t, n)
    } else {
        match locations[0] {
            SpecLocation::Local(cell) => spec_freshen_locations_over(
                spec_relocate_term(t, 1, cell, spec_location_name(n)),
                locations.drop_first(),
                spec_next(n),
            ),
            _ => spec_freshen_locations_over(t, locations.drop_first(), n),
        }
    }
}

/// Whether `s` ends with `suffix`, compared character by character.
pub(crate) fn text_ends_with(s: &str, suffix: &str) -> (r: bool)
    ensures
        r == spec_ends_with(s@, suffix@),
{
    let n = s.unicode_len();
    let m = suffix.unicode_len();
    if m > n {
        return false;
    }
    let mut j: usize = 0;
    while j < m
        invariant
            n == s@.len(),
            m == suffix@.len(),
            m <= n,
            j <= m,
            forall|k: int| 0 <= k < j ==> s@[n - m + k] == suffix@[k],
        decreases m - j,
    {
        if s.get_char(n - m + j) != suffix.get_char(j) {
            assert(s@.subrange(n - m, n as int)[j as int] != suffix@[j as int]);
            return false;
        }
        j = j + 1;
    }
    assert(s@.subrange(n - m, n as int) =~= suffix@);
    true
}

impl Term {
    /// Renames every bound variable to a fresh name, in the order `get_bound_variables`
    /// lists them; a name ending in `_entry` keeps that ending.
    pub fn freshen_variables(&self, names: &mut NameSupply) -> (r: Term)
        ensures
            spec_freshen_variables_over(self@, spec_bound_variables(self@), old(names).next_var)
                == (r@, final(names).next_var),
            final(names).next_location == old(names).next_location,
    {
        let bound = self.get_bound_variables();
        let mut current = self.clone();
        let mut i: usize = 0;
        proof {
            reveal_strlit("_entry");
            assert("_entry"@ =~= spec_entry_suffix());
            assert(bound.deep_view().skip(0) =~= bound.deep_view());
        }
        while i < bound.len()
            invariant
                i <= bound.len(),
                bound.deep_view() == spec_bound_variables(self@),
                names.next_location == old(names).next_location,
                spec_freshen_variables_over(current@, bound.deep_view().skip(i as int), names.next_var)
                    == spec_freshen_variables_over(
                    self@,
                    spec_bound_variables(self@),
                    old(names).next_var,
                ),
            decreases bound.len() - i,
        {
            let var = &bound[i];
            let ghost rest = bound.deep_view().skip(i as int);
            assert(rest[0] == var@);
            assert(rest.drop_first() =~= bound.deep_view().skip(i + 1));
            proof {
                reveal_strlit("_entry");
                assert("_entry"@ =~= spec_entry_suffix());
            }
            if text_ends_with(var.as_str(), "_entry") {
                let fresh = fresh_var(names);
                let new_name = concat(fresh.as_str(), "_entry");
                current = current.rename_variable(var.as_str(), new_name.as_str());
            } else {
                let fresh = fresh_var(names);
                current = current.rename_variable(var.as_str(), fresh.as_str());
            }
            i = i + 1;
        }
        proof {
            assert(bound.deep_view().skip(bound.len() as int) =~= Seq::<Seq<char>>::empty());
        }
        current
    }

    /// Renames every local location to a fresh location name, in the order
    /// `get_all_locations` lists them; other locations are kept.
    pub fn freshen_locations(&self, names: &mut NameSupply) -> (r: Term)
        ensures
            spec_freshen_locations_over(self@, spec_all_locations(self@), old(names).next_location)
                == (r@, final(names).next_location),
            final(names).next_var == old(names).next_var,
    {
        let locations = self.get_all_locations();
        let mut current_term = self.clone();
        let mut i: usize = 0;
        assert(locations_view(locations@).skip(0) =~= locations_view(locations@));
        while i < locations.len()
            invariant
                i <= locations.len(),
                locations_view(locations@) == spec_all_locations(self@),
                names.next_var == old(names).next_var,
                spec_freshen_locations_over(
                    current_term@,
                    locations_view(locations@).skip(i as int),
                    names.next_location,
                ) == spec_freshen_locations_over(
                    self@,
                    spec_all_locations(self@),
                    old(names).next_location,
                ),
            decreases locations.len() - i,
        {
            let ghost rest = locations_view(locations@).skip(i as int);
            assert(rest[0] == locations@[i as int]@);
            assert(rest.drop_first() =~= locations_view(locations@).skip(i + 1));
            match &locations[i] {
                Location::Local(cell) => {
                    let fresh = fresh_location(names);
                    current_term = current_term.rename_locals(cell.clone(), fresh);
                },
                _ => {},
            }
            i = i + 1;
        }
        proof {
            assert(locations_view(locations@).skip(locations.len() as int) =~= Seq::<
                SpecLocation,
            >::empty());
        }
        current_term
    }
}

} // verus!

verus! {

/// The number of operation nodes in a term, counting those nested in operations.
pub open spec fn spec_ops(t: SpecTerm) -> nat
    decreases t,
{
    match t {
        SpecTerm::Operation(o) => 1 + spec_op_ops(o),
        SpecTerm::Application { function, argument, .. } => spec_ops(*function) + spec_ops(
            *argument,
        ),
        SpecTerm::Abstraction { term, .. } => spec_ops(*term),
        SpecTerm::Case { term, then, .. } => spec_ops(*term) + spec_ops(*then),
        SpecTerm::Loop { term, .. } => spec_ops(*term),
        _ => 0,
    }
}

/// The number of operation nodes in the terms that an operation carries.
pub open spec fn spec_op_ops(o: SpecOperation) -> nat
    decreases o,
{
    match o {
        SpecOperation::Write { argument } => spec_ops(*argument),
        SpecOperation::Update { argument, .. } => spec_ops(*argument),
        SpecOperation::Rnd { argument1, argument2 } => spec_ops(*argument1) + spec_ops(*argument2),
        SpecOperation::Sequence { first, second } => spec_ops(*first) + spec_ops(*second),
        SpecOperation::TryCatch { try_, failure, .. } => spec_ops(*try_) + spec_ops(*failure),
        SpecOperation::IfThenElse { condition, then, else_ } => spec_ops(*condition) + spec_ops(
            *then,
        ) + spec_ops(*else_),
        SpecOperation::Switch { term, cases } => spec_ops(*term) + spec_cases_ops(cases),
        SpecOperation::DoWhile { term, condition } => spec_ops(*term) + spec_ops(*condition),
        SpecOperation::WhileDo { condition, term } => spec_ops(*condition) + spec_ops(*term),
        _ => 0,
    }
}

/// The number of operation nodes in the branches of a switch.
pub open spec fn spec_cases_ops(cases: Seq<(SpecChoice, SpecTerm)>) -> nat
    decreases cases,
{
    if cases.len() == 0 {
        0
    } else {
        spec_cases_ops(cases.drop_last()) + spec_ops(cases.last().1)
    }
}

/// `first ; second`: run `first`, and on the skip choice continue with `second`.
pub open spec fn spec_sequence(first: SpecTerm, second: SpecTerm) -> SpecTerm {
    SpecTerm::Case { term: Box::new(first), exit: spec_skip(), then: Box::new(second) }
}

/// The case on a boolean choice.
pub open spec fn spec_bool_choice(b: bool) -> SpecChoice {
    SpecChoice::Constant(Constant::Boolean(b))
}

/// The break choice.
pub open spec fn spec_break() -> SpecChoice {
    SpecChoice::Exception(SpecException::Break)
}

/// The branches of a switch folded onto `base`: each case continues the one before it.
pub open spec fn spec_switch_fold(base: SpecTerm, cases: Seq<(SpecChoice, SpecTerm)>) -> SpecTerm
    decreases cases.len(),
{
    if cases.len() == 0 {
        base
    } else {
        SpecTerm::Case {
            term: Box::new(spec_switch_fold(base, cases.drop_last())),
            exit: cases.last().0,
            then: Box::new(cases.last().1),
        }
    }
}

/// The raw term that an operation stands for, drawing fresh names from the counter `n`.
/// The names of the variable occurrences of a term, operations included, in order.
pub open spec fn spec_var_names(t: SpecTerm) -> Seq<Seq<char>>
    decreases t,
{
    match t {
        SpecTerm::Variable { name } => seq![name],
        SpecTerm::Abstraction { term, .. } => spec_var_names(*term),
        SpecTerm::Application { function, argument, .. } => spec_var_names(*function)
            + spec_var_names(*argument),
        SpecTerm::Case { term, then, .. } => spec_var_names(*term) + spec_var_names(*then),
        SpecTerm::Loop { term, .. } => spec_var_names(*term),
        SpecTerm::Operation(o) => spec_op_var_names(o),
        _ => Seq::empty(),
    }
}

/// The names of the variable occurrences of an operation's terms, in order.
pub open spec fn spec_op_var_names(o: SpecOperation) -> Seq<Seq<char>>
    decreases o,
{
    match o {
        SpecOperation::Write { argument } => spec_var_names(*argument),
        SpecOperation::Update { argument, .. } => spec_var_names(*argument),
        SpecOperation::Rnd { argument1, argument2 } => spec_var_names(*argument1) + spec_var_names(
            *argument2,
        ),
        SpecOperation::Sequence { first, second } => spec_var_names(*first) + spec_var_names(
            *second,
        ),
        SpecOperation::TryCatch { try_, failure, .. } => spec_var_names(*try_) + spec_var_names(
            *failure,
        ),
        SpecOperation::IfThenElse { condition, then, else_ } => spec_var_names(*condition)
            + spec_var_names(*then) + spec_var_names(*else_),
        SpecOperation::Switch { term, cases } => spec_var_names(*term) + spec_cases_var_names(
            cases,
        ),
        SpecOperation::DoWhile { term, condition } => spec_var_names(*term) + spec_var_names(
            *condition,
        ),
        SpecOperation::WhileDo { condition, term } => spec_var_names(*condition) + spec_var_names(
            *term,
        ),
        _ => Seq::empty(),
    }
}

/// The names of the variable occurrences of the branches of a switch, in order.
pub open spec fn spec_cases_var_names(cases: Seq<(SpecChoice, SpecTerm)>) -> Seq<Seq<char>>
    decreases cases,
{
    if cases.len() == 0 {
        Seq::empty()
    } else {
        spec_cases_var_names(cases.drop_last()) + spec_var_names(cases.last().1)
    }
}

/// A list of names written one after the other.
pub open spec fn spec_joined(names: Seq<Seq<char>>) -> Seq<char>
    decreases names.len(),
{
    if names.len() == 0 {
        Seq::empty()
    } else {
        spec_joined(names.drop_last()) + names.last()
    }
}

/// The name a substitution renames a binder to: the next drawn name, unless a variable of
/// the replacement or of the body, or the substituted name itself, is called so; then the
/// drawn name followed by all those names, a name longer than each.
pub open spec fn spec_fresh_binder(n: u64, body: SpecTerm, w: SpecTerm, v: Seq<char>) -> Seq<char> {
    let names = spec_var_names(w) + spec_var_names(body) + seq![v];
    if names.contains(spec_var_name(n)) {
        spec_var_name(n) + spec_joined(names)
    } else {
        spec_var_name(n)
    }
}

/// A binder drawn for a substitution names no variable of the replacement or of the body,
/// and is not the substituted name.
proof fn lemma_fresh_binder_fresh(n: u64, body: SpecTerm, w: SpecTerm, v: Seq<char>)
    ensures
        !spec_var_names(w).contains(spec_fresh_binder(n, body, w, v)),
        !spec_var_names(body).contains(spec_fresh_binder(n, body, w, v)),
        spec_fresh_binder(n, body, w, v) != v,
        !spec_occurs_free(w, spec_fresh_binder(n, body, w, v)),
        !spec_occurs_free(body, spec_fresh_binder(n, body, w, v)),
{
    let a = spec_var_names(w);
    let c = spec_var_names(body);
    let names = a + c + seq![v];
    let f = spec_fresh_binder(n, body, w, v);
    assert forall|i: int| 0 <= i < names.len() implies names[i] != f by {
        if names.contains(spec_var_name(n)) {
            lemma_joined_longer(names, i);
        }
    }
    if a.contains(f) {
        let k = choose|k: int| 0 <= k < a.len() && a[k] == f;
        assert(names[k] == a[k]);
    }
    if c.contains(f) {
        let k = choose|k: int| 0 <= k < c.len() && c[k] == f;
        assert(names[a.len() + k] == c[k]);
    }
    assert(names[(a.len() + c.len()) as int] == v);
    if spec_occurs_free(w, f) {
        lemma_free_among_names(w, f);
    }
    if spec_occurs_free(body, f) {
        lemma_free_among_names(body, f);
    }
}

/// The binder of an expanded `Rnd`: `x`, unless a variable of either argument is named `x`;
/// then `x` followed by every variable name of both arguments, a name longer than each.
pub open spec fn spec_rnd_binder(argument1: SpecTerm, argument2: SpecTerm) -> Seq<char> {
    let names = spec_var_names(argument1) + spec_var_names(argument2);
    if names.contains(seq!['x']) {
        seq!['x'] + spec_joined(names)
    } else {
        seq!['x']
    }
}

/// A name is no longer than the names joined with it.
proof fn lemma_joined_longer(names: Seq<Seq<char>>, i: int)
    requires
        0 <= i < names.len(),
    ensures
        names[i].len() <= spec_joined(names).len(),
    decreases names.len(),
{
    if i < names.len() - 1 {
        lemma_joined_longer(names.drop_last(), i);
    }
}

/// A variable that occurs free is among the variable names of a term.
proof fn lemma_free_among_names(t: SpecTerm, n: Seq<char>)
    requires
        spec_occurs_free(t, n),
    ensures
        spec_var_names(t).contains(n),
    decreases t,
{
    match t {
        SpecTerm::Variable { name } => {
            assert(seq![name][0] == n);
        },
        SpecTerm::Abstraction { term, .. } => lemma_free_among_names(*term, n),
        SpecTerm::Application { function, argument, .. } => {
            if spec_occurs_free(*function, n) {
                lemma_free_among_names(*function, n);
                let k = choose|k: int| 0 <= k < spec_var_names(*function).len() && spec_var_names(*function)[k] == n;
                assert((spec_var_names(*function) + spec_var_names(*argument))[k] == n);
            } else {
                lemma_free_among_names(*argument, n);
                let k = choose|k: int| 0 <= k < spec_var_names(*argument).len() && spec_var_names(*argument)[k] == n;
                assert((spec_var_names(*function) + spec_var_names(*argument))[spec_var_names(*function).len() + k] == n);
            }
        },
        SpecTerm::Case { term, then, .. } => {
            if spec_occurs_free(*term, n) {
                lemma_free_among_names(*term, n);
                let k = choose|k: int| 0 <= k < spec_var_names(*term).len() && spec_var_names(*term)[k] == n;
                assert((spec_var_names(*term) + spec_var_names(*then))[k] == n);
            } else {
                lemma_free_among_names(*then, n);
                let k = choose|k: int| 0 <= k < spec_var_names(*then).len() && spec_var_names(*then)[k] == n;
                assert((spec_var_names(*term) + spec_var_names(*then))[spec_var_names(*term).len() + k] == n);
            }
        },
        SpecTerm::Loop { term, .. } => lemma_free_among_names(*term, n),
        _ => {},
    }
}

/// The binder of an expanded `Rnd` names no variable of either argument, so no variable of
/// an argument is bound by it: the expansion gives one of the two arguments as written.
pub proof fn lemma_rnd_binder_fresh(argument1: SpecTerm, argument2: SpecTerm)
    ensures
        !spec_var_names(argument1).contains(spec_rnd_binder(argument1, argument2)),
        !spec_var_names(argument2).contains(spec_rnd_binder(argument1, argument2)),
        !spec_occurs_free(argument1, spec_rnd_binder(argument1, argument2)),
        !spec_occurs_free(argument2, spec_rnd_binder(argument1, argument2)),
{
    let a = spec_var_names(argument1);
    let c = spec_var_names(argument2);
    let names = a + c;
    let b = spec_rnd_binder(argument1, argument2);
    if names.contains(seq!['x']) {
        assert forall|i: int| 0 <= i < names.len() implies names[i] != b by {
            lemma_joined_longer(names, i);
        }
    } else {
        assert forall|i: int| 0 <= i < names.len() implies names[i] != b by {}
    }
    if a.contains(b) {
        let k = choose|k: int| 0 <= k < a.len() && a[k] == b;
        assert(names[k] == a[k]);
    }
    if c.contains(b) {
        let k = choose|k: int| 0 <= k < c.len() && c[k] == b;
        assert(names[a.len() + k] == c[k]);
    }
    if spec_occurs_free(argument1, b) {
        lemma_free_among_names(argument1, b);
    }
    if spec_occurs_free(argument2, b) {
        lemma_free_among_names(argument2, b);
    }
}

/// Appends the names of the variable occurrences of a term.
fn collect_var_names(t: &Term, out: &mut Vec<String>)
    ensures
        final(out).deep_view() == old(out).deep_view() + spec_var_names(t@),
    decreases t,
{
    let ghost start = out.deep_view();
    match t {
        Term::Variable { name } => {
            out.push(name.clone());
            assert(out.deep_view() =~= start + spec_var_names(t@));
        },
        Term::Abstraction { term, .. } => {
            collect_var_names(term, out);
        },
        Term::Application { function, argument, .. } => {
            collect_var_names(function, out);
            collect_var_names(argument, out);
            assert(out.deep_view() =~= start + spec_var_names(t@));
        },
        Term::Case { term, then, .. } => {
            collect_var_names(term, out);
            collect_var_names(then, out);
            assert(out.deep_view() =~= start + spec_var_names(t@));
        },
        Term::Loop { term, .. } => {
            collect_var_names(term, out);
        },
        Term::Operation(o) => {
            collect_op_var_names(o, out);
        },
        _ => {
            assert(out.deep_view() =~= start + spec_var_names(t@));
        },
    }
}

/// Appends the names of the variable occurrences of an operation's terms.
fn collect_op_var_names(o: &Operation, out: &mut Vec<String>)
    ensures
        final(out).deep_view() == old(out).deep_view() + spec_op_var_names(o@),
    decreases o,
{
    let ghost start = out.deep_view();
    match o {
        Operation::Write { argument } => {
            collect_var_names(argument, out);
        },
        Operation::Update { argument, .. } => {
            collect_var_names(argument, out);
        },
        Operation::Rnd { argument1, argument2 } => {
            collect_var_names(argument1, out);
            collect_var_names(argument2, out);
            assert(out.deep_view() =~= start + spec_op_var_names(o@));
        },
        Operation::Sequence { first, second } => {
            collect_var_names(first, out);
            collect_var_names(second, out);
            assert(out.deep_view() =~= start + spec_op_var_names(o@));
        },
        Operation::TryCatch { try_, failure, .. } => {
            collect_var_names(try_, out);
            collect_var_names(failure, out);
            assert(out.deep_view() =~= start + spec_op_var_names(o@));
        },
        Operation::IfThenElse { condition, then, else_ } => {
            collect_var_names(condition, out);
            collect_var_names(then, out);
            collect_var_names(else_, out);
            assert(out.deep_view() =~= start + spec_op_var_names(o@));
        },
        Operation::DoWhile { term, condition } => {
            collect_var_names(term, out);
            collect_var_names(condition, out);
            assert(out.deep_view() =~= start + spec_op_var_names(o@));
        },
        Operation::WhileDo { condition, term } => {
            collect_var_names(condition, out);
            collect_var_names(term, out);
            assert(out.deep_view() =~= start + spec_op_var_names(o@));
        },
        Operation::Switch { term, cases } => {
            collect_var_names(term, out);
            let ghost head = out.deep_view();
            proof {
                lemma_cases_view(cases@);
                assert(cases_view(cases@).take(0) =~= Seq::<(SpecChoice, SpecTerm)>::empty());
                assert(head =~= head + spec_cases_var_names(cases_view(cases@).take(0)));
            }
            let mut i: usize = 0;
            #[verifier::loop_isolation(false)]
            while i < cases.len()
                invariant
                    i <= cases.len(),
                    out.deep_view() == head + spec_cases_var_names(cases_view(cases@).take(i as int)),
                    cases_view(cases@).len() == cases.len(),
                    forall|j: int|
                        0 <= j < cases.len() ==> #[trigger] cases_view(cases@)[j] == (
                            cases[j].0@,
                            term_view(&cases[j].1),
                        ),
                decreases cases.len() - i,
            {
                let ghost prefix = cases_view(cases@).take(i + 1);
                proof {
                    assert(prefix.drop_last() =~= cases_view(cases@).take(i as int));
                    assert(prefix.last() == cases_view(cases@)[i as int]);
                    assert(decreases_to!(cases@ => cases@[i as int]));
                }
                let ghost before = out.deep_view();
                collect_var_names(&cases[i].1, out);
                proof {
                    assert(out.deep_view() =~= head + spec_cases_var_names(prefix));
                }
                i = i + 1;
            }
            proof {
                assert(cases_view(cases@).take(cases.len() as int) =~= cases_view(cases@));
            }
            assert(out.deep_view() =~= start + spec_op_var_names(o@));
        },
        _ => {
            assert(out.deep_view() =~= start + spec_op_var_names(o@));
        },
    }
}

/// Draws the name a substitution of `with` for `variable` renames a binder over `body` to
/// (see `spec_fresh_binder`).
fn fresh_binder(names: &mut NameSupply, body: &Term, with: &Term, variable: &str) -> (r: String)
    ensures
        r@ == spec_fresh_binder(old(names).next_var, body@, with@, variable@),
        final(names).next_var == spec_next(old(names).next_var),
        final(names).next_location == old(names).next_location,
{
    let x = fresh_var(names);
    let mut all: Vec<String> = Vec::new();
    assert(all.deep_view() =~= Seq::<Seq<char>>::empty());
    collect_var_names(with, &mut all);
    collect_var_names(body, &mut all);
    let ghost before = all.deep_view();
    all.push(crate::text::owned(variable));
    assert(all.deep_view() =~= spec_var_names(with@) + spec_var_names(body@) + seq![variable@]);
    if names_contains(&all, x.as_str()) {
        let mut b = x;
        let ghost x0 = b@;
        let mut i: usize = 0;
        assert(all.deep_view().take(0) =~= Seq::<Seq<char>>::empty());
        assert(b@ =~= x0 + spec_joined(all.deep_view().take(0)));
        while i < all.len()
            invariant
                i <= all.len(),
                b@ == x0 + spec_joined(all.deep_view().take(i as int)),
            decreases all.len() - i,
        {
            assert(all.deep_view().take(i + 1).drop_last() =~= all.deep_view().take(i as int));
            assert(all.deep_view().take(i + 1).last() == all[i as int]@);
            crate::text::push_text(&mut b, all[i].as_str());
            assert(b@ =~= x0 + spec_joined(all.deep_view().take(i + 1)));
            i = i + 1;
        }
        assert(all.deep_view().take(all.len() as int) =~= all.deep_view());
        b
    } else {
        x
    }
}

/// The binder for an expanded `Rnd` over the two arguments (see `spec_rnd_binder`).
pub(crate) fn rnd_binder(argument1: &Term, argument2: &Term) -> (r: String)
    ensures
        r@ == spec_rnd_binder(argument1@, argument2@),
{
    let mut names: Vec<String> = Vec::new();
    assert(names.deep_view() =~= Seq::<Seq<char>>::empty());
    collect_var_names(argument1, &mut names);
    collect_var_names(argument2, &mut names);
    assert(names.deep_view() =~= spec_var_names(argument1@) + spec_var_names(argument2@));
    let x = crate::text::owned("x");
    proof {
        reveal_strlit("x");
        assert(x@ =~= seq!['x']);
    }
    if names_contains(&names, "x") {
        let mut b = x;
        let mut i: usize = 0;
        assert(names.deep_view().take(0) =~= Seq::<Seq<char>>::empty());
        while i < names.len()
            invariant
                i <= names.len(),
                b@ == seq!['x'] + spec_joined(names.deep_view().take(i as int)),
            decreases names.len() - i,
        {
            assert(names.deep_view().take(i + 1).drop_last() =~= names.deep_view().take(i as int));
            assert(names.deep_view().take(i + 1).last() == names[i as int]@);
            crate::text::push_text(&mut b, names[i].as_str());
            assert(b@ =~= seq!['x'] + spec_joined(names.deep_view().take(i + 1)));
            i = i + 1;
        }
        assert(names.deep_view().take(names.len() as int) =~= names.deep_view());
        b
    } else {
        x
    }
}

pub open spec fn spec_expand(o: SpecOperation, n: u64) -> (SpecTerm, u64) {
    let x = spec_var_name(n);
    let skip_term = SpecTerm::Choice(spec_skip());
    match o {
        SpecOperation::Read => (
            SpecTerm::Abstraction {
                binds: x,
                term: Box::new(spec_as_expression(spec_variable(x))),
                location: SpecLocation::Input,
            },
            spec_next(n),
        ),
        SpecOperation::Write { argument } => (
            spec_sequence(
                *argument,
                SpecTerm::Abstraction {
                    binds: x,
                    term: Box::new(
                        SpecTerm::Application {
                            function: Box::new(skip_term),
                            argument: Box::new(spec_variable(x)),
                            location: SpecLocation::Output,
                        },
                    ),
                    location: SpecLocation::Main,
                },
            ),
            spec_next(n),
        ),
        SpecOperation::Update { location, argument } => (
            spec_sequence(
                *argument,
                SpecTerm::Abstraction {
                    binds: x,
                    term: Box::new(
                        SpecTerm::Abstraction {
                            binds: seq!['_'],
                            term: Box::new(
                                SpecTerm::Application {
                                    function: Box::new(skip_term),
                                    argument: Box::new(spec_variable(x)),
                                    location,
                                },
                            ),
                            location,
                        },
                    ),
                    location: SpecLocation::Main,
                },
            ),
            spec_next(n),
        ),
        SpecOperation::Lookup { cell } => (
            SpecTerm::Abstraction {
                binds: x,
                term: Box::new(
                    SpecTerm::Application {
                        function: Box::new(
                            SpecTerm::Application {
                                function: Box::new(skip_term),
                                argument: Box::new(spec_variable(x)),
                                location: SpecLocation::Main,
                            },
                        ),
                        argument: Box::new(spec_variable(x)),
                        location: SpecLocation::Cell(cell),
                    },
                ),
                location: SpecLocation::Cell(cell),
            },
            spec_next(n),
        ),
        SpecOperation::Rnd { argument1, argument2 } => (
            SpecTerm::Abstraction {
                binds: spec_rnd_binder(*argument1, *argument2),
                term: Box::new(
                    SpecTerm::Application {
                        function: Box::new(
                            SpecTerm::Application {
                                function: Box::new(spec_variable(spec_rnd_binder(*argument1, *argument2))),
                                argument: argument1,
                                location: SpecLocation::Main,
                            },
                        ),
                        argument: argument2,
                        location: SpecLocation::Main,
                    },
                ),
                location: SpecLocation::Rnd,
            },
            n,
        ),
        SpecOperation::Sequence { first, second } => (spec_sequence(*first, *second), n),
        SpecOperation::Throw { error_code } => (SpecTerm::Choice(error_code), n),
        SpecOperation::TryCatch { try_, catch, failure } => (
            SpecTerm::Case { term: try_, exit: catch, then: failure },
            n,
        ),
        SpecOperation::Constant { choice } => (
            SpecTerm::Application {
                function: Box::new(skip_term),
                argument: Box::new(SpecTerm::Choice(choice)),
                location: SpecLocation::Main,
            },
            n,
        ),
        SpecOperation::IfThenElse { condition, then, else_ } => (
            SpecTerm::Case {
                term: Box::new(
                    SpecTerm::Case {
                        term: Box::new(spec_sequence(*condition, spec_identity(x))),
                        exit: spec_bool_choice(true),
                        then,
                    },
                ),
                exit: spec_bool_choice(false),
                then: else_,
            },
            spec_next(n),
        ),
        SpecOperation::Switch { term, cases } => (
            spec_switch_fold(spec_sequence(*term, spec_identity(x)), cases),
            spec_next(n),
        ),
        SpecOperation::DoWhile { term, condition } => (
            SpecTerm::Case {
                term: Box::new(
                    SpecTerm::Case {
                        term: Box::new(
                            SpecTerm::Loop {
                                term: Box::new(
                                    spec_sequence(spec_sequence(*term, *condition), spec_identity(x)),
                                ),
                                branch: spec_bool_choice(true),
                            },
                        ),
                        exit: spec_bool_choice(false),
                        then: Box::new(skip_term),
                    },
                ),
                exit: spec_break(),
                then: Box::new(skip_term),
            },
            spec_next(n),
        ),
        SpecOperation::WhileDo { condition, term } => (
            SpecTerm::Case {
                term: Box::new(
                    SpecTerm::Case {
                        term: Box::new(
                            SpecTerm::Loop {
                                term: Box::new(
                                    SpecTerm::Case {
                                        term: Box::new(spec_sequence(*condition, spec_identity(x))),
                                        exit: spec_bool_choice(true),
                                        then: term,
                                    },
                                ),
                                branch: spec_skip(),
                            },
                        ),
                        exit: spec_bool_choice(false),
                        then: Box::new(skip_term),
                    },
                ),
                exit: spec_break(),
                then: Box::new(skip_term),
            },
            spec_next(n),
        ),
    }
}

/// Folding the branches of a switch adds their operations to those of the base.
pub proof fn lemma_switch_fold_ops(base: SpecTerm, cases: Seq<(SpecChoice, SpecTerm)>)
    ensures
        spec_ops(spec_switch_fold(base, cases)) == spec_ops(base) + spec_cases_ops(cases),
    decreases cases.len(),
{
    if cases.len() > 0 {
        lemma_switch_fold_ops(base, cases.drop_last());
    }
}

/// Expanding an operation removes exactly that one operation node.
pub proof fn lemma_expand_ops(o: SpecOperation, n: u64)
    ensures
        spec_ops(spec_expand(o, n).0) == spec_op_ops(o),
{
    reveal_with_fuel(spec_ops, 8);
    match o {
        SpecOperation::Switch { term, cases } => {
            lemma_switch_fold_ops(spec_sequence(*term, spec_identity(spec_var_name(n))), cases);
        },
        _ => {},
    }
}

/// Every operation of a term expanded, left to right, drawing fresh names from `n`.
pub open spec fn spec_expand_operations(t: SpecTerm, n: u64) -> (SpecTerm, u64)
    decreases spec_ops(t), spec_size(t),
{
    match t {
        SpecTerm::Abstraction { binds, term, location } => {
            let (b, n1) = spec_expand_operations(*term, n);
            (SpecTerm::Abstraction { binds, term: Box::new(b), location }, n1)
        },
        SpecTerm::Application { function, argument, location } => {
            let (f, n1) = spec_expand_operations(*function, n);
            let (a, n2) = spec_expand_operations(*argument, n1);
            (SpecTerm::Application { function: Box::new(f), argument: Box::new(a), location }, n2)
        },
        SpecTerm::Operation(o) => {
            proof {
                lemma_expand_ops(o, n);
            }
            let (e, n1) = spec_expand(o, n);
            spec_expand_operations(e, n1)
        },
        SpecTerm::Case { term, exit, then } => {
            let (m, n1) = spec_expand_operations(*term, n);
            let (k, n2) = spec_expand_operations(*then, n1);
            (SpecTerm::Case { term: Box::new(m), exit, then: Box::new(k) }, n2)
        },
        SpecTerm::Loop { term, branch } => {
            let (m, n1) = spec_expand_operations(*term, n);
            (SpecTerm::Loop { term: Box::new(m), branch }, n1)
        },
        _ => (t, n),
    }
}

impl Term {
    /// Recursively expands all the operation terms to their raw forms.
    pub fn expand_operations(&self, names: &mut NameSupply) -> (r: Term)
        ensures
            spec_expand_operations(self@, old(names).next_var) == (r@, final(names).next_var),
            final(names).next_location == old(names).next_location,
        decreases spec_ops(self@), spec_size(self@),
    {
        match self {
            Term::Variable { .. } => self.clone(),
            Term::Abstraction { binds, term, location } => Term::Abstraction {
                binds: binds.clone(),
                term: Box::new(term.expand_operations(names)),
                location: location.clone(),
            },
            Term::Application { function, argument, location } => {
                let f = function.expand_operations(names);
                let a = argument.expand_operations(names);
                Term::Application { function: Box::new(f), argument: Box::new(a), location: location.clone() }
            },
            Term::Operation(operation) => {
                proof {
                    lemma_expand_ops(operation@, names.next_var);
                }
                let expanded = operation.expand(names);
                expanded.expand_operations(names)
            },
            Term::Choice(_) => self.clone(),
            Term::Case { term, exit, then } => {
                let m = term.expand_operations(names);
                let k = then.expand_operations(names);
                Term::Case { term: Box::new(m), exit: exit.clone(), then: Box::new(k) }
            },
            Term::Loop { term, branch } => Term::Loop {
                term: Box::new(term.expand_operations(names)),
                branch: branch.clone(),
            },
            Term::Special(_) => self.clone(),
        }
    }
}

/// Expanding every operation leaves no operation in the term.
pub proof fn lemma_expand_operations_no_ops(t: SpecTerm, n: u64)
    ensures
        spec_no_ops(spec_expand_operations(t, n).0),
    decreases spec_ops(t), spec_size(t),
{
    match t {
        SpecTerm::Abstraction { term, .. } => {
            lemma_expand_operations_no_ops(*term, n);
        },
        SpecTerm::Application { function, argument, .. } => {
            lemma_expand_operations_no_ops(*function, n);
            let (_, n1) = spec_expand_operations(*function, n);
            lemma_expand_operations_no_ops(*argument, n1);
        },
        SpecTerm::Operation(o) => {
            lemma_expand_ops(o, n);
            let (e, n1) = spec_expand(o, n);
            lemma_expand_operations_no_ops(e, n1);
        },
        SpecTerm::Case { term, then, .. } => {
            lemma_expand_operations_no_ops(*term, n);
            let (_, n1) = spec_expand_operations(*term, n);
            lemma_expand_operations_no_ops(*then, n1);
        },
        SpecTerm::Loop { term, .. } => {
            lemma_expand_operations_no_ops(*term, n);
        },
        _ => {},
    }
}

/// Expanding the operations of a term that has none changes nothing.
pub proof fn lemma_expand_operations_without_operations(t: SpecTerm, n: u64)
    requires
        spec_no_ops(t),
    ensures
        spec_expand_operations(t, n) == (t, n),
    decreases t,
{
    match t {
        SpecTerm::Abstraction { term, .. } => lemma_expand_operations_without_operations(*term, n),
        SpecTerm::Application { function, argument, .. } => {
            lemma_expand_operations_without_operations(*function, n);
            lemma_expand_operations_without_operations(*argument, n);
        },
        SpecTerm::Case { term, then, .. } => {
            lemma_expand_operations_without_operations(*term, n);
            lemma_expand_operations_without_operations(*then, n);
        },
        SpecTerm::Loop { term, .. } => lemma_expand_operations_without_operations(*term, n),
        _ => {},
    }
}

/// Expanding operations twice gives what expanding once gives: the expanded term has no
/// operation left, and expanding such a term changes nothing (whatever the counter).
pub proof fn lemma_expand_operations_idempotent(t: SpecTerm, n: u64, m: u64)
    ensures
        spec_expand_operations(spec_expand_operations(t, n).0, m) == (spec_expand_operations(t, n).0, m),
{
    lemma_expand_operations_no_ops(t, n);
    lemma_expand_operations_without_operations(spec_expand_operations(t, n).0, m);
}

/// Substituting a term without operations gives a term without operations.
proof fn lemma_subst_keeps_no_ops(t: SpecTerm, v: Seq<char>, w: SpecTerm, n: u64, fuel: nat)
    requires
        spec_no_ops(t),
        spec_no_ops(w),
        spec_subst_fuel(t, v, w, n, fuel) is Some,
    ensures
        spec_no_ops(spec_subst_fuel(t, v, w, n, fuel).unwrap().0),
    decreases fuel,
{
    if fuel > 0 {
        match t {
            SpecTerm::Abstraction { binds, term, .. } => {
                if binds != v {
                    if spec_free_variables(w).contains(binds) {
                        let fresh = spec_fresh_binder(n, *term, w, v);
                        let (renamed, n1) = spec_subst_fuel(
                            *term,
                            binds,
                            spec_variable(fresh),
                            spec_next(n),
                            (fuel - 1) as nat,
                        ).unwrap();
                        lemma_subst_keeps_no_ops(*term, binds, spec_variable(fresh), spec_next(n), (fuel - 1) as nat);
                        lemma_subst_keeps_no_ops(renamed, v, w, n1, (fuel - 1) as nat);
                    } else {
                        lemma_subst_keeps_no_ops(*term, v, w, n, (fuel - 1) as nat);
                    }
                }
            },
            SpecTerm::Application { function, argument, .. } => {
                let (f, n1) = spec_subst_fuel(*function, v, w, n, (fuel - 1) as nat).unwrap();
                lemma_subst_keeps_no_ops(*function, v, w, n, (fuel - 1) as nat);
                lemma_subst_keeps_no_ops(*argument, v, w, n1, (fuel - 1) as nat);
            },
            SpecTerm::Case { term, then, .. } => {
                let (m, n1) = spec_subst_fuel(*term, v, w, n, (fuel - 1) as nat).unwrap();
                lemma_subst_keeps_no_ops(*term, v, w, n, (fuel - 1) as nat);
                lemma_subst_keeps_no_ops(*then, v, w, n1, (fuel - 1) as nat);
            },
            SpecTerm::Loop { term, .. } => {
                lemma_subst_keeps_no_ops(*term, v, w, n, (fuel - 1) as nat);
            },
            _ => {},
        }
    }
}

/// A reduction step on a term without operations gives a term without operations.
proof fn lemma_reduce_keeps_no_ops(t: SpecTerm, count: u32, n: u64)
    requires
        spec_no_ops(t),
        spec_fmc_normal_reduce(t, count, n) is Some,
    ensures
        spec_no_ops(spec_fmc_normal_reduce(t, count, n).unwrap().0),
    decreases t, 1nat,
{
    reveal_with_fuel(spec_no_ops, 3);
    match spec_compute_reduce(t, n) {
        Some((Some(r), n1)) => {
            match t {
                SpecTerm::Application { function, argument, .. } => {
                    assert(spec_no_ops(*function) && spec_no_ops(*argument));
                    match *function {
                        SpecTerm::Abstraction { binds, term: body, .. } => {
                            assert(spec_no_ops(*body));
                            lemma_subst_keeps_no_ops(*body, binds, *argument, n, spec_size(*body));
                        },
                        _ => {},
                    }
                },
                SpecTerm::Case { term, then, .. } => {
                    assert(spec_no_ops(*term) && spec_no_ops(*then));
                },
                _ => {},
            }
            assert(spec_no_ops(r));
        },
        Some((None, n1)) => match spec_structure_reduce(t, n1) {
            Some((Some(r), n2)) => {
                match t {
                    SpecTerm::Case { term, then, .. } => {
                        assert(spec_no_ops(*term) && spec_no_ops(*then));
                        match *term {
                            SpecTerm::Abstraction { term: inner, .. } => {
                                assert(spec_no_ops(*inner));
                            },
                            SpecTerm::Application { function, argument, .. } => {
                                assert(spec_no_ops(*function) && spec_no_ops(*argument));
                            },
                            SpecTerm::Case { term: a, then: b, .. } => {
                                assert(spec_no_ops(*a) && spec_no_ops(*b));
                            },
                            _ => {},
                        }
                        if let SpecTerm::Abstraction { binds, term: inner, .. } = *term {
                            lemma_rebind(binds, *inner, *then, n1);
                        }
                        assert(spec_no_ops(r));
                    },
                    SpecTerm::Application { function, argument, .. } => {
                        assert(spec_no_ops(*function) && spec_no_ops(*argument));
                        if let SpecTerm::Abstraction { binds, term: body, .. } = *function {
                            assert(spec_no_ops(*body));
                            if spec_rebind(binds, *body, *argument, n1) is Some {
                                lemma_rebind(binds, *body, *argument, n1);
                            }
                        }
                        assert(spec_no_ops(r));
                    },
                    _ => {},
                }
                assert(spec_no_ops(r));
            },
            Some((None, n2)) => {
                if let Some((Some(_), _)) = spec_descend_reduce(t, count, n2) {
                    lemma_descend_keeps_no_ops(t, count, n2);
                }
            },
            None => {},
        },
        None => {},
    }
}

/// A reduction step inside a term without operations gives a term without operations.
proof fn lemma_descend_keeps_no_ops(t: SpecTerm, count: u32, n: u64)
    requires
        spec_no_ops(t),
        spec_descend_reduce(t, count, n) matches Some((Some(_), _)),
    ensures
        spec_no_ops(spec_descend_reduce(t, count, n).unwrap().0.unwrap()),
    decreases t, 0nat,
{
    match t {
        SpecTerm::Application { function, argument, .. } => {
            lemma_reduce_keeps_no_ops(*function, count, n);
            let (f2, n1) = spec_fmc_normal_reduce(*function, count, n).unwrap();
            if f2 == *function {
                lemma_reduce_keeps_no_ops(*argument, count, n1);
            }
        },
        SpecTerm::Abstraction { term, .. } => {
            lemma_reduce_keeps_no_ops(*term, count, n);
        },
        SpecTerm::Case { term, then, .. } => {
            lemma_reduce_keeps_no_ops(*term, count, n);
            let (m2, n1) = spec_fmc_normal_reduce(*term, count, n).unwrap();
            if m2 == *term {
                lemma_reduce_keeps_no_ops(*then, count, n1);
            }
        },
        SpecTerm::Loop { term, .. } => {
            lemma_reduce_keeps_no_ops(*term, count, n);
        },
        _ => {},
    }
}

/// What a substitution does to free variables, at a given fuel (see `lemma_substitute_free`).
proof fn lemma_subst_fuel_free(t: SpecTerm, v: Seq<char>, w: SpecTerm, n: u64, fuel: nat)
    requires
        spec_no_ops(t),
        spec_no_ops(w),
        spec_subst_fuel(t, v, w, n, fuel) is Some,
    ensures
        forall|x: Seq<char>|
            #[trigger] spec_occurs_free(spec_subst_fuel(t, v, w, n, fuel).unwrap().0, x) <==> ((
            spec_occurs_free(t, x) && x != v) || (spec_occurs_free(t, v) && spec_occurs_free(w, x))),
    decreases fuel,
{
    let r = spec_subst_fuel(t, v, w, n, fuel).unwrap().0;
    match t {
        SpecTerm::Abstraction { binds, term, location } => {
            if binds != v {
                if spec_free_variables(w).contains(binds) {
                    let f = spec_fresh_binder(n, *term, w, v);
                    let (renamed, n1) = spec_subst_fuel(
                        *term,
                        binds,
                        spec_variable(f),
                        spec_next(n),
                        (fuel - 1) as nat,
                    ).unwrap();
                    lemma_subst_fuel_free(*term, binds, spec_variable(f), spec_next(n), (fuel - 1) as nat);
                    lemma_subst_keeps_no_ops(*term, binds, spec_variable(f), spec_next(n), (fuel - 1) as nat);
                    lemma_subst_fuel_free(renamed, v, w, n1, (fuel - 1) as nat);
                    lemma_fresh_binder_fresh(n, *term, w, v);
                    let body2 = spec_subst_fuel(renamed, v, w, n1, (fuel - 1) as nat).unwrap().0;
                    assert(r == SpecTerm::Abstraction { binds: f, term: Box::new(body2), location });
                    assert forall|x: Seq<char>| #[trigger] spec_occurs_free(r, x) <==> ((spec_occurs_free(t, x)
                        && x != v) || (spec_occurs_free(t, v) && spec_occurs_free(w, x))) by {
                        assert(spec_occurs_free(spec_variable(f), x) <==> x == f);
                        assert(spec_occurs_free(spec_variable(f), v) <==> v == f);
                        assert(spec_occurs_free(renamed, x) <==> ((spec_occurs_free(*term, x) && x != binds)
                            || (spec_occurs_free(*term, binds) && spec_occurs_free(spec_variable(f), x))));
                        assert(spec_occurs_free(renamed, v) <==> ((spec_occurs_free(*term, v) && v != binds)
                            || (spec_occurs_free(*term, binds) && spec_occurs_free(spec_variable(f), v))));
                        lemma_free_variables_occur_free(w, binds);
                        assert(spec_occurs_free(w, binds));
                        assert(spec_occurs_free(body2, x) <==> ((spec_occurs_free(renamed, x) && x != v) || (
                        spec_occurs_free(renamed, v) && spec_occurs_free(w, x))));
                        assert(spec_occurs_free(r, x) == (f != x && spec_occurs_free(body2, x)));
                        assert(spec_occurs_free(t, x) == (binds != x && spec_occurs_free(*term, x)));
                        assert(spec_occurs_free(t, v) == (binds != v && spec_occurs_free(*term, v)));
                        if x == f {
                            assert(!spec_occurs_free(w, x));
                            assert(!spec_occurs_free(*term, x));
                        }
                    }
                } else {
                    lemma_subst_fuel_free(*term, v, w, n, (fuel - 1) as nat);
                    assert forall|x: Seq<char>| #[trigger] spec_occurs_free(r, x) <==> ((spec_occurs_free(t, x)
                        && x != v) || (spec_occurs_free(t, v) && spec_occurs_free(w, x))) by {
                        lemma_free_variables_occur_free(w, binds);
                        assert(spec_occurs_free(spec_subst_fuel(*term, v, w, n, (fuel - 1) as nat).unwrap().0, x)
                            <==> ((spec_occurs_free(*term, x) && x != v) || (spec_occurs_free(*term, v)
                            && spec_occurs_free(w, x))));
                    }
                }
            }
        },
        SpecTerm::Application { function, argument, .. } => {
            let (f1, n1) = spec_subst_fuel(*function, v, w, n, (fuel - 1) as nat).unwrap();
            lemma_subst_fuel_free(*function, v, w, n, (fuel - 1) as nat);
            lemma_subst_fuel_free(*argument, v, w, n1, (fuel - 1) as nat);
            let a1 = spec_subst_fuel(*argument, v, w, n1, (fuel - 1) as nat).unwrap().0;
            assert forall|x: Seq<char>| #[trigger] spec_occurs_free(r, x) <==> ((spec_occurs_free(t, x)
                && x != v) || (spec_occurs_free(t, v) && spec_occurs_free(w, x))) by {
                assert(spec_occurs_free(f1, x) <==> ((spec_occurs_free(*function, x) && x != v) || (
                spec_occurs_free(*function, v) && spec_occurs_free(w, x))));
                assert(spec_occurs_free(a1, x) <==> ((spec_occurs_free(*argument, x) && x != v) || (
                spec_occurs_free(*argument, v) && spec_occurs_free(w, x))));
            }
        },
        SpecTerm::Case { term, then, .. } => {
            let (m1, n1) = spec_subst_fuel(*term, v, w, n, (fuel - 1) as nat).unwrap();
            lemma_subst_fuel_free(*term, v, w, n, (fuel - 1) as nat);
            lemma_subst_fuel_free(*then, v, w, n1, (fuel - 1) as nat);
            let k1 = spec_subst_fuel(*then, v, w, n1, (fuel - 1) as nat).unwrap().0;
            assert forall|x: Seq<char>| #[trigger] spec_occurs_free(r, x) <==> ((spec_occurs_free(t, x)
                && x != v) || (spec_occurs_free(t, v) && spec_occurs_free(w, x))) by {
                assert(spec_occurs_free(m1, x) <==> ((spec_occurs_free(*term, x) && x != v) || (
                spec_occurs_free(*term, v) && spec_occurs_free(w, x))));
                assert(spec_occurs_free(k1, x) <==> ((spec_occurs_free(*then, x) && x != v) || (
                spec_occurs_free(*then, v) && spec_occurs_free(w, x))));
            }
        },
        SpecTerm::Loop { term, .. } => {
            lemma_subst_fuel_free(*term, v, w, n, (fuel - 1) as nat);
            let m1 = spec_subst_fuel(*term, v, w, n, (fuel - 1) as nat).unwrap().0;
            assert forall|x: Seq<char>| #[trigger] spec_occurs_free(r, x) <==> ((spec_occurs_free(t, x)
                && x != v) || (spec_occurs_free(t, v) && spec_occurs_free(w, x))) by {
                assert(spec_occurs_free(m1, x) <==> ((spec_occurs_free(*term, x) && x != v) || (
                spec_occurs_free(*term, v) && spec_occurs_free(w, x))));
            }
        },
        _ => {},
    }
}

/// Capture-avoiding substitution: the free variables of `t` with `w` put for `v` are those of
/// `t` other than `v`, and, where `v` occurs free in `t`, those of `w`. No free variable of
/// `w` is bound in the result.
pub proof fn lemma_substitute_free(t: SpecTerm, v: Seq<char>, w: SpecTerm, n: u64, x: Seq<char>)
    requires
        spec_no_ops(t),
        spec_no_ops(w),
        spec_substitute(t, v, w, n) is Some,
    ensures
        spec_occurs_free(spec_substitute(t, v, w, n).unwrap().0, x) <==> ((spec_occurs_free(t, x)
            && x != v) || (spec_occurs_free(t, v) && spec_occurs_free(w, x))),
{
    lemma_subst_fuel_free(t, v, w, n, spec_size(t));
}

/// Renaming a binder away from the free variables of `other` keeps the body free of
/// operations, binds no free variable of `other`, and leaves the free variables of the
/// abstraction as they were.
pub proof fn lemma_rebind(binds: Seq<char>, body: SpecTerm, other: SpecTerm, n: u64)
    requires
        spec_no_ops(body),
        spec_rebind(binds, body, other, n) is Some,
    ensures
        spec_no_ops(spec_rebind(binds, body, other, n).unwrap().1),
        !spec_occurs_free(other, spec_rebind(binds, body, other, n).unwrap().0),
        forall|x: Seq<char>|
            (x != spec_rebind(binds, body, other, n).unwrap().0 && #[trigger] spec_occurs_free(
                spec_rebind(binds, body, other, n).unwrap().1,
                x,
            )) <==> (x != binds && spec_occurs_free(body, x)),
{
    lemma_free_variables_occur_free(other, binds);
    if spec_free_variables(other).contains(binds) {
        let f = spec_fresh_binder(n, body, other, binds);
        lemma_fresh_binder_fresh(n, body, other, binds);
        lemma_subst_keeps_no_ops(body, binds, spec_variable(f), spec_next(n), spec_size(body));
        lemma_subst_fuel_free(body, binds, spec_variable(f), spec_next(n), spec_size(body));
        let new_body = spec_substitute(body, binds, spec_variable(f), spec_next(n)).unwrap().0;
        assert forall|x: Seq<char>|
            (x != f && #[trigger] spec_occurs_free(new_body, x)) <==> (x != binds && spec_occurs_free(body, x)) by {
            assert(spec_occurs_free(spec_variable(f), x) <==> x == f);
        }
    }
}

/// A structural reduction step keeps the free variables of the term: it never binds a free
/// variable nor frees a bound one.
pub proof fn lemma_structure_reduce_free(t: SpecTerm, n: u64, x: Seq<char>)
    requires
        spec_no_ops(t),
        spec_structure_reduce(t, n) matches Some((Some(_), _)),
    ensures
        spec_occurs_free(spec_structure_reduce(t, n).unwrap().0.unwrap(), x) <==> spec_occurs_free(t, x),
{
    reveal_with_fuel(spec_no_ops, 3);
    reveal_with_fuel(spec_occurs_free, 3);
    match t {
        SpecTerm::Case { term, then, .. } => {
            match *term {
                SpecTerm::Abstraction { binds, term: inner, .. } => {
                    lemma_rebind(binds, *inner, *then, n);
                    let rb = spec_rebind(binds, *inner, *then, n).unwrap();
                    let b = rb.0;
                    let new_inner = rb.1;
                    assert(spec_occurs_free(new_inner, x) == spec_occurs_free(rb.1, x));
                    assert((x != b && spec_occurs_free(new_inner, x)) <==> (x != binds
                        && spec_occurs_free(*inner, x)));
                    if spec_occurs_free(*then, x) {
                        assert(x != b);
                    }
                },
                _ => {},
            }
        },
        SpecTerm::Application { function, argument, .. } => {
            match *function {
                SpecTerm::Abstraction { binds, term: body, .. } => {
                    lemma_rebind(binds, *body, *argument, n);
                    let rb = spec_rebind(binds, *body, *argument, n).unwrap();
                    let b = rb.0;
                    let new_body = rb.1;
                    assert(spec_occurs_free(new_body, x) == spec_occurs_free(rb.1, x));
                    assert((x != b && spec_occurs_free(new_body, x)) <==> (x != binds
                        && spec_occurs_free(*body, x)));
                    if spec_occurs_free(*argument, x) {
                        assert(x != b);
                    }
                },
                _ => {},
            }
        },
        _ => {},
    }
}

/// A beta-reduction step that moves a term under or past an abstraction (every step but
/// substituting into an abstraction on its own location, and a case on a choice) keeps the
/// free variables of the term: it never binds a free variable nor frees a bound one.
pub proof fn lemma_beta_reduce_free(t: SpecTerm, n: u64, x: Seq<char>)
    requires
        spec_no_ops(t),
        spec_beta_reduce(t, n) matches Some((Some(_), _)),
        !(t matches SpecTerm::Application { function, location, .. } && (*function matches SpecTerm::Abstraction { location: l2, .. } && l2 == location)),
        !(t matches SpecTerm::Case { term, .. } && *term is Choice),
    ensures
        spec_occurs_free(spec_beta_reduce(t, n).unwrap().0.unwrap(), x) <==> spec_occurs_free(t, x),
{
    reveal_with_fuel(spec_no_ops, 3);
    reveal_with_fuel(spec_occurs_free, 3);
    match t {
        SpecTerm::Case { term, then, .. } => {
            match *term {
                SpecTerm::Abstraction { binds, term: inner, .. } => {
                    lemma_rebind(binds, *inner, *then, n);
                    let rb = spec_rebind(binds, *inner, *then, n).unwrap();
                    let b = rb.0;
                    let new_inner = rb.1;
                    assert(spec_occurs_free(new_inner, x) == spec_occurs_free(rb.1, x));
                    assert((x != b && spec_occurs_free(new_inner, x)) <==> (x != binds
                        && spec_occurs_free(*inner, x)));
                    if spec_occurs_free(*then, x) {
                        assert(x != b);
                    }
                },
                _ => {},
            }
        },
        SpecTerm::Application { function, argument, .. } => {
            match *function {
                SpecTerm::Abstraction { binds, term: body, .. } => {
                    lemma_rebind(binds, *body, *argument, n);
                    let rb = spec_rebind(binds, *body, *argument, n).unwrap();
                    let b = rb.0;
                    let new_body = rb.1;
                    assert(spec_occurs_free(new_body, x) == spec_occurs_free(rb.1, x));
                    assert((x != b && spec_occurs_free(new_body, x)) <==> (x != binds
                        && spec_occurs_free(*body, x)));
                    if spec_occurs_free(*argument, x) {
                        assert(x != b);
                    }
                },
                _ => {},
            }
        },
        _ => {},
    }
}

/// A computation step: a case on a choice gives its branch or the choice; an application of
/// an abstraction on its own location gives the body with the argument put for the binder,
/// so its free variables are the body's other than the binder and, where the binder occurs
/// free in the body, the argument's.
pub proof fn lemma_compute_reduce_free(t: SpecTerm, n: u64, x: Seq<char>)
    requires
        spec_no_ops(t),
        spec_compute_reduce(t, n) matches Some((Some(_), _)),
    ensures
        ({
            let r = spec_compute_reduce(t, n).unwrap().0.unwrap();
            match t {
                SpecTerm::Application { function, argument, .. } => match *function {
                    SpecTerm::Abstraction { binds, term: body, .. } => spec_occurs_free(r, x) <==> ((
                    spec_occurs_free(*body, x) && x != binds) || (spec_occurs_free(*body, binds)
                        && spec_occurs_free(*argument, x))),
                    _ => true,
                },
                SpecTerm::Case { term, exit, then } => match *term {
                    SpecTerm::Choice(c) => r == if c == exit {
                        *then
                    } else {
                        *term
                    },
                    _ => true,
                },
                _ => true,
            }
        }),
{
    reveal_with_fuel(spec_no_ops, 3);
    match t {
        SpecTerm::Application { function, argument, .. } => {
            match *function {
                SpecTerm::Abstraction { binds, term: body, .. } => {
                    lemma_substitute_free(*body, binds, *argument, n, x);
                },
                _ => {},
            }
        },
        _ => {},
    }
}

/// The reduction loop on a term without operations gives a term without operations.
pub proof fn lemma_reduction_keeps_no_ops(t: SpecTerm, n: u64, count: nat)
    requires
        spec_no_ops(t),
        spec_reduction_loop(t, n, count) is Some,
    ensures
        spec_no_ops(spec_reduction_loop(t, n, count).unwrap().0),
    decreases 1001 - count,
{
    if count <= 1000 {
        lemma_reduce_keeps_no_ops(t, 0, n);
        let (next, n1) = spec_fmc_normal_reduce(t, 0, n).unwrap();
        if next != t && count + 1 <= 1000 {
            lemma_reduction_keeps_no_ops(next, n1, count + 1);
        }
    }
}

/// Whether a name is that of a variable occurrence or of a binder of a term, outside its
/// operations.
pub open spec fn spec_uses_name(t: SpecTerm, n: Seq<char>) -> bool
    decreases t,
{
    match t {
        SpecTerm::Variable { name } => name == n,
        SpecTerm::Abstraction { binds, term, .. } => binds == n || spec_uses_name(*term, n),
        SpecTerm::Application { function, argument, .. } => spec_uses_name(*function, n)
            || spec_uses_name(*argument, n),
        SpecTerm::Case { term, then, .. } => spec_uses_name(*term, n) || spec_uses_name(*then, n),
        SpecTerm::Loop { term, .. } => spec_uses_name(*term, n),
        _ => false,
    }
}

/// Renaming `from` to a name `to` that the term does not use, then `to` back to `from`,
/// gives the term back.
pub proof fn lemma_rename_variable_undone(t: SpecTerm, from: Seq<char>, to: Seq<char>)
    requires
        !spec_uses_name(t, to),
    ensures
        spec_rename_variable(spec_rename_variable(t, from, to), to, from) == t,
    decreases t,
{
    match t {
        SpecTerm::Abstraction { term, .. } => lemma_rename_variable_undone(*term, from, to),
        SpecTerm::Application { function, argument, .. } => {
            lemma_rename_variable_undone(*function, from, to);
            lemma_rename_variable_undone(*argument, from, to);
        },
        SpecTerm::Case { term, then, .. } => {
            lemma_rename_variable_undone(*term, from, to);
            lemma_rename_variable_undone(*then, from, to);
        },
        SpecTerm::Loop { term, .. } => lemma_rename_variable_undone(*term, from, to),
        _ => {},
    }
}

/// Collecting free variables onto a list without duplicates keeps it without duplicates.
proof fn lemma_collect_free_no_duplicates(t: SpecTerm, acc: Seq<Seq<char>>)
    requires
        acc.no_duplicates(),
    ensures
        spec_collect_free(t, acc).no_duplicates(),
    decreases t,
{
    match t {
        SpecTerm::Variable { name } => {
            lemma_insert_no_duplicates(acc, name);
        },
        SpecTerm::Abstraction { binds, term, .. } => {
            lemma_merge_no_duplicates(acc, spec_remove(spec_collect_free(*term, Seq::empty()), binds));
        },
        SpecTerm::Application { function, argument, .. } => {
            lemma_collect_free_no_duplicates(*function, acc);
            lemma_collect_free_no_duplicates(*argument, spec_collect_free(*function, acc));
        },
        SpecTerm::Case { term, then, .. } => {
            lemma_collect_free_no_duplicates(*term, acc);
            lemma_collect_free_no_duplicates(*then, spec_collect_free(*term, acc));
        },
        SpecTerm::Loop { term, .. } => {
            lemma_collect_free_no_duplicates(*term, acc);
        },
        _ => {},
    }
}

/// A name is collected exactly when it was collected before or occurs free in the term.
proof fn lemma_collect_free_contains(t: SpecTerm, acc: Seq<Seq<char>>, n: Seq<char>)
    ensures
        spec_collect_free(t, acc).contains(n) <==> (acc.contains(n) || spec_occurs_free(t, n)),
    decreases t,
{
    match t {
        SpecTerm::Variable { name } => {
            lemma_list_contains(acc, acc, name, n);
        },
        SpecTerm::Abstraction { binds, term, .. } => {
            let inner = spec_collect_free(*term, Seq::empty());
            lemma_collect_free_contains(*term, Seq::empty(), n);
            lemma_list_contains(acc, spec_remove(inner, binds), binds, n);
            lemma_list_contains(acc, inner, binds, n);
        },
        SpecTerm::Application { function, argument, .. } => {
            lemma_collect_free_contains(*function, acc, n);
            lemma_collect_free_contains(*argument, spec_collect_free(*function, acc), n);
        },
        SpecTerm::Case { term, then, .. } => {
            lemma_collect_free_contains(*term, acc, n);
            lemma_collect_free_contains(*then, spec_collect_free(*term, acc), n);
        },
        SpecTerm::Loop { term, .. } => {
            lemma_collect_free_contains(*term, acc, n);
        },
        _ => {},
    }
}

/// The free variables of a term are exactly the names that have an occurrence in it under
/// no binder of the same name.
pub proof fn lemma_free_variables_occur_free(t: SpecTerm, n: Seq<char>)
    ensures
        spec_free_variables(t).contains(n) <==> spec_occurs_free(t, n),
{
    lemma_collect_free_contains(t, Seq::empty(), n);
}

/// Collecting binders onto a list without duplicates keeps it without duplicates.
proof fn lemma_collect_bound_no_duplicates(t: SpecTerm, acc: Seq<Seq<char>>)
    requires
        acc.no_duplicates(),
    ensures
        spec_collect_bound(t, acc).no_duplicates(),
    decreases t,
{
    match t {
        SpecTerm::Abstraction { binds, term, .. } => {
            lemma_insert_no_duplicates(acc, binds);
            lemma_collect_bound_no_duplicates(*term, spec_insert(acc, binds));
        },
        SpecTerm::Application { function, argument, .. } => {
            lemma_collect_bound_no_duplicates(*function, acc);
            lemma_collect_bound_no_duplicates(*argument, spec_collect_bound(*function, acc));
        },
        SpecTerm::Case { term, then, .. } => {
            lemma_collect_bound_no_duplicates(*term, acc);
            lemma_collect_bound_no_duplicates(*then, spec_collect_bound(*term, acc));
        },
        SpecTerm::Loop { term, .. } => {
            lemma_collect_bound_no_duplicates(*term, acc);
        },
        _ => {},
    }
}

/// Collecting locations onto a list without duplicates keeps it without duplicates.
proof fn lemma_collect_locations_no_duplicates(t: SpecTerm, acc: Seq<SpecLocation>)
    requires
        acc.no_duplicates(),
    ensures
        spec_collect_locations(t, acc).no_duplicates(),
    decreases t,
{
    match t {
        SpecTerm::Abstraction { term, location, .. } => {
            lemma_insert_no_duplicates(acc, location);
            lemma_collect_locations_no_duplicates(*term, spec_insert(acc, location));
        },
        SpecTerm::Application { function, argument, location } => {
            lemma_insert_no_duplicates(acc, location);
            lemma_collect_locations_no_duplicates(*function, spec_insert(acc, location));
            lemma_collect_locations_no_duplicates(
                *argument,
                spec_collect_locations(*function, spec_insert(acc, location)),
            );
        },
        SpecTerm::Case { term, then, .. } => {
            lemma_collect_locations_no_duplicates(*term, acc);
            lemma_collect_locations_no_duplicates(*then, spec_collect_locations(*term, acc));
        },
        SpecTerm::Loop { term, .. } => {
            lemma_collect_locations_no_duplicates(*term, acc);
        },
        _ => {},
    }
}

/// The free variables, the bound variables and the locations of a term are each listed
/// once: every list is a set.
pub proof fn lemma_term_lists_are_sets(t: SpecTerm)
    ensures
        spec_free_variables(t).no_duplicates(),
        spec_bound_variables(t).no_duplicates(),
        spec_all_locations(t).no_duplicates(),
{
    lemma_collect_free_no_duplicates(t, Seq::empty());
    lemma_collect_bound_no_duplicates(t, Seq::empty());
    lemma_collect_locations_no_duplicates(t, Seq::empty());
}

/// Names drawn at different counts are different: fresh names never repeat until the
/// counter wraps.
pub proof fn lemma_fresh_names_distinct(n: u64, m: u64)
    requires
        n != m,
    ensures
        spec_var_name(n) != spec_var_name(m),
        spec_location_name(n) != spec_location_name(m),
{
    crate::text::lemma_digits(n as nat, m as nat);
    if spec_var_name(n) == spec_var_name(m) {
        assert(spec_var_name(n).drop_first() =~= spec_digits(n as nat));
        assert(spec_var_name(m).drop_first() =~= spec_digits(m as nat));
    }
    if spec_location_name(n) == spec_location_name(m) {
        assert(spec_location_name(n).drop_first() =~= spec_digits(n as nat));
        assert(spec_location_name(m).drop_first() =~= spec_digits(m as nat));
    }
}

} // verus!
