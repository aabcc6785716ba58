use vstd::prelude::*;

use crate::fmc_core::choice::{Choice, SpecChoice};
use crate::fmc_core::location::{Location, SpecLocation};
use crate::fmc_core::choice::{Constant, Exception};
use crate::fmc_core::term::{
    cases_view, fresh_var, lemma_cases_view, op_view, rnd_binder, spec_expand, spec_switch_fold, term_view,
    NameSupply, SpecOperation, Term,
};

verus! {

/// Encodes constructs for specific effects.
#[derive(Debug)]
pub enum Operation {
    /// Gets a term from the input stream.
    Read,
    /// Pushes a term to the output stream.
    Write { argument: Box<Term> },
    /// Updates a memory cell with a term.
    Update { location: Location, argument: Box<Term> },
    /// Gets a copy of the term at the given cell.
    Lookup { cell: String },
    /// Returns either of the provided arguments with equal probabilty.
    Rnd { argument1: Box<Term>, argument2: Box<Term> },
    Sequence { first: Box<Term>, second: Box<Term> },
    Throw { error_code: Choice },
    TryCatch { try_: Box<Term>, catch: Choice, failure: Box<Term> },
    Constant { choice: Choice },
    IfThenElse { condition: Box<Term>, then: Box<Term>, else_: Box<Term> },
    Switch { term: Box<Term>, cases: Vec<(Choice, Box<Term>)> },
    DoWhile { term: Box<Term>, condition: Box<Term> },
    WhileDo { condition: Box<Term>, term: Box<Term> },
}

impl View for Operation {
    type V = SpecOperation;

    open spec fn view(&self) -> SpecOperation {
        op_view(self)
    }
}


impl Operation {
    /// Returns the operation expanded into raw terms, drawing fresh names from `names`.
    pub fn expand(&self, names: &mut NameSupply) -> (r: Term)
        ensures
            spec_expand(self@, old(names).next_var) == (r@, final(names).next_var),
            final(names).next_location == old(names).next_location,
    {
        proof {
            reveal_with_fuel(term_view, 8);
        }
        match self {
            Operation::Read => {
                // read = in<x>.[x].*
                let new_var = fresh_var(names);
                Term::Abstraction {
                    binds: new_var.clone(),
                    term: Box::new(Term::Variable { name: new_var }.as_expression()),
                    location: Location::Input,
                }
            },
            Operation::Write { argument } => {
                let new_var = fresh_var(names);
                Term::Case {
                    term: argument.clone(),
                    exit: Choice::skip(),
                    then: Box::new(
                        Term::Abstraction {
                            binds: new_var.clone(),
                            term: Box::new(
                                Term::Application {
                                    function: Box::new(Term::Choice(Choice::skip())),
                                    argument: Box::new(Term::Variable { name: new_var }),
                                    location: Location::Output,
                                },
                            ),
                            location: Location::Main,
                        },
                    ),
                }
            },
            Operation::Update { location, argument } => {
                // c := M = M;<x>.c<_>.[x]c.*
                let new_var = fresh_var(names);
                proof {
                    reveal_strlit("_");
                    assert("_"@ =~= seq!['_']);
                }
                Term::Case {
                    term: argument.clone(),
                    exit: Choice::skip(),
                    then: Box::new(
                        Term::Abstraction {
                            binds: new_var.clone(),
                            term: Box::new(
                                Term::Abstraction {
                                    binds: crate::text::owned("_"),
                                    term: Box::new(
                                        Term::Application {
                                            function: Box::new(
                                                Term::Choice(Choice::Exception(Exception::Skip)),
                                            ),
                                            argument: Box::new(Term::Variable { name: new_var }),
                                            location: location.clone(),
                                        },
                                    ),
                                    location: location.clone(),
                                },
                            ),
                            location: Location::Main,
                        },
                    ),
                }
            },
            Operation::Lookup { cell } => {
                // !c = c<x>.[x]c.[x].*
                let new_var = fresh_var(names);
                Term::Abstraction {
                    binds: new_var.clone(),
                    term: Box::new(
                        Term::Application {
                            function: Box::new(
                                Term::Application {
                                    function: Box::new(Term::Choice(Choice::skip())),
                                    argument: Box::new(Term::Variable { name: new_var.clone() }),
                                    location: Location::Main,
                                },
                            ),
                            argument: Box::new(Term::Variable { name: new_var }),
                            location: Location::Cell(cell.clone()),
                        },
                    ),
                    location: Location::Cell(cell.clone()),
                }
            },
            Operation::Rnd { argument1, argument2 } => {
                // N + M = rnd<x>.x M N, with a binder that names no variable of N or M
                let binder = rnd_binder(argument1, argument2);
                Term::Abstraction {
                    binds: binder.clone(),
                    term: Box::new(
                        Term::Application {
                            function: Box::new(
                                Term::Application {
                                    function: Box::new(Term::Variable { name: binder }),
                                    argument: argument1.clone(),
                                    location: Location::Main,
                                },
                            ),
                            argument: argument2.clone(),
                            location: Location::Main,
                        },
                    ),
                    location: Location::Rnd,
                }
            },
            Operation::Sequence { first, second } => Term::Case {
                term: first.clone(),
                exit: Choice::skip(),
                then: second.clone(),
            },
            Operation::Throw { error_code } => Term::Choice(error_code.clone()),
            Operation::TryCatch { try_, catch, failure } => Term::Case {
                term: try_.clone(),
                exit: catch.clone(),
                then: failure.clone(),
            },
            Operation::Constant { choice } => Term::Application {
                function: Box::new(Term::Choice(Choice::skip())),
                argument: Box::new(Term::Choice(choice.clone())),
                location: Location::Main,
            },
            Operation::IfThenElse { condition, then, else_ } => {
                let identity = Term::id(names);
                Term::Case {
                    term: Box::new(
                        Term::Case {
                            term: Box::new(
                                Term::Case {
                                    term: condition.clone(),
                                    exit: Choice::skip(),
                                    then: Box::new(identity),
                                },
                            ),
                            exit: Choice::Constant(Constant::Boolean(true)),
                            then: then.clone(),
                        },
                    ),
                    exit: Choice::Constant(Constant::Boolean(false)),
                    then: else_.clone(),
                }
            },
            Operation::Switch { term, cases } => {
                let identity = Term::id(names);
                let mut acc = Term::Case {
                    term: term.clone(),
                    exit: Choice::skip(),
                    then: Box::new(identity),
                };
                let ghost base = acc@;
                proof {
                    lemma_cases_view(cases@);
                    assert(cases_view(cases@).take(0) =~= Seq::empty());
                }
                let mut i: usize = 0;
                while i < cases.len()
                    invariant
                        i <= cases.len(),
                        cases_view(cases@).len() == cases.len(),
                        forall|j: int|
                            0 <= j < cases.len() ==> #[trigger] cases_view(cases@)[j] == (
                                cases@[j].0@,
                                term_view(&cases@[j].1),
                            ),
                        acc@ == spec_switch_fold(base, cases_view(cases@).take(i as int)),
                    decreases cases.len() - i,
                {
                    let ghost prefix = cases_view(cases@).take(i + 1);
                    proof {
                        assert(prefix.drop_last() =~= cases_view(cases@).take(i as int));
                        assert(prefix.last() == cases_view(cases@)[i as int]);
                        reveal_with_fuel(term_view, 2);
                    }
                    acc = Term::Case {
                        term: Box::new(acc),
                        exit: cases[i].0.clone(),
                        then: cases[i].1.clone(),
                    };
                    i = i + 1;
                }
                proof {
                    assert(cases_view(cases@).take(cases.len() as int) =~= cases_view(cases@));
                }
                acc
            },
            Operation::DoWhile { term, condition } => {
                let identity = Term::id(names);
                Term::Case {
                    term: Box::new(
                        Term::Case {
                            term: Box::new(
                                Term::Loop {
                                    term: Box::new(
                                        Term::Case {
                                            term: Box::new(
                                                Term::Case {
                                                    term: term.clone(),
                                                    exit: Choice::skip(),
                                                    then: condition.clone(),
                                                },
                                            ),
                                            exit: Choice::skip(),
                                            then: Box::new(identity),
                                        },
                                    ),
                                    branch: Choice::Constant(Constant::Boolean(true)),
                                },
                            ),
                            exit: Choice::Constant(Constant::Boolean(false)),
                            then: Box::new(Term::Choice(Choice::skip())),
                        },
                    ),
                    exit: Choice::Exception(Exception::Break),
                    then: Box::new(Term::Choice(Choice::skip())),
                }
            },
            Operation::WhileDo { condition, term } => {
                // (B ; <x>.x ; true -> M)^* ; false -> * ; break -> *
                let identity = Term::id(names);
                Term::Case {
                    term: Box::new(
                        Term::Case {
                            term: Box::new(
                                Term::Loop {
                                    term: Box::new(
                                        Term::Case {
                                            term: Box::new(
                                                Term::Case {
                                                    term: condition.clone(),
                                                    exit: Choice::skip(),
                                                    then: Box::new(identity),
                                                },
                                            ),
                                            exit: Choice::Constant(Constant::Boolean(true)),
                                            then: term.clone(),
                                        },
                                    ),
                                    branch: Choice::skip(),
                                },
                            ),
                            exit: Choice::Constant(Constant::Boolean(false)),
                            then: Box::new(Term::Choice(Choice::skip())),
                        },
                    ),
                    exit: Choice::Exception(Exception::Break),
                    then: Box::new(Term::Choice(Choice::skip())),
                }
            },
        }
    }
}

} // verus!
