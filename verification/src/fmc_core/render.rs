use vstd::prelude::*;

use crate::fmc_core::choice::{spec_skip, Choice, Constant, Exception, SpecChoice, SpecException};
use crate::fmc_core::location::{Location, SpecLocation};
use crate::fmc_core::operation::Operation;
use crate::fmc_core::special::Special;
use crate::fmc_core::term::{cases_view, lemma_cases_view, term_view, SpecOperation, SpecTerm, Term};
use crate::text::{i32_text, push_text, spec_int_text};

verus! {

/// The text of a location.
pub open spec fn spec_location_text(l: SpecLocation) -> Seq<char> {
    match l {
        SpecLocation::Main => "λ"@,
        SpecLocation::Input => "in"@,
        SpecLocation::Output => "out"@,
        SpecLocation::Rnd => "rnd"@,
        SpecLocation::RndBool => "rnd_b"@,
        SpecLocation::RndFloat => "rnd_f"@,
        SpecLocation::Cell(name) => name,
        SpecLocation::Stack(name) => name,
        SpecLocation::Local(name) => name,
    }
}

/// The text of a primitive.
pub open spec fn spec_special_text(s: Special) -> Seq<char> {
    match s {
        Special::LogicOr => "||"@,
        Special::LogicAnd => "&&"@,
        Special::LogicNot => "!"@,
        Special::Equal => "=="@,
        Special::NotEqual => "!="@,
        Special::LessThan => "<"@,
        Special::GreaterThan => ">"@,
        Special::LessThanEqual => "<="@,
        Special::GreaterThanEqual => ">="@,
        Special::Addition => "+"@,
        Special::Subraction => "-"@,
        Special::Multiplication => "*"@,
        Special::Division => "/"@,
        Special::Modulo => "%"@,
        Special::IntCast => "int"@,
    }
}

/// The text of a choice: the integer, `true`, `false`, `#` (skip), `break`, `return`, or
/// the name of a named exception.
pub open spec fn spec_choice_text(c: SpecChoice) -> Seq<char> {
    match c {
        SpecChoice::Constant(Constant::Integer(i)) => spec_int_text(i as int),
        SpecChoice::Constant(Constant::Boolean(b)) => if b {
            "true"@
        } else {
            "false"@
        },
        SpecChoice::Exception(SpecException::Skip) => "#"@,
        SpecChoice::Exception(SpecException::Break) => "break"@,
        SpecChoice::Exception(SpecException::Return) => "return"@,
        SpecChoice::Exception(SpecException::Exception(name)) => name,
    }
}

/// Whether every switch in a term has at least one case (a switch without cases has no text).
pub open spec fn spec_renderable(t: SpecTerm) -> bool
    decreases t,
{
    match t {
        SpecTerm::Application { function, argument, .. } => spec_renderable(*function)
            && spec_renderable(*argument),
        SpecTerm::Abstraction { term, .. } => spec_renderable(*term),
        SpecTerm::Operation(o) => spec_op_renderable(o),
        SpecTerm::Case { term, then, .. } => spec_renderable(*term) && spec_renderable(*then),
        SpecTerm::Loop { term, .. } => spec_renderable(*term),
        _ => true,
    }
}

/// Whether every switch in an operation has at least one case.
pub open spec fn spec_op_renderable(o: SpecOperation) -> bool
    decreases o,
{
    match o {
        SpecOperation::Write { argument } => spec_renderable(*argument),
        SpecOperation::Update { argument, .. } => spec_renderable(*argument),
        SpecOperation::Rnd { argument1, argument2 } => spec_renderable(*argument1)
            && spec_renderable(*argument2),
        SpecOperation::Sequence { first, second } => spec_renderable(*first) && spec_renderable(
            *second,
        ),
        SpecOperation::TryCatch { try_, failure, .. } => spec_renderable(*try_) && spec_renderable(
            *failure,
        ),
        SpecOperation::IfThenElse { condition, then, else_ } => spec_renderable(*condition)
            && spec_renderable(*then) && spec_renderable(*else_),
        SpecOperation::Switch { term, cases } => cases.len() > 0 && spec_renderable(*term)
            && spec_cases_renderable(cases),
        SpecOperation::DoWhile { term, condition } => spec_renderable(*term) && spec_renderable(
            *condition,
        ),
        SpecOperation::WhileDo { condition, term } => spec_renderable(*condition)
            && spec_renderable(*term),
        _ => true,
    }
}

/// Whether every branch of a switch is renderable.
pub open spec fn spec_cases_renderable(cases: Seq<(SpecChoice, SpecTerm)>) -> bool
    decreases cases,
{
    if cases.len() == 0 {
        true
    } else {
        spec_cases_renderable(cases.drop_last()) && spec_renderable(cases.last().1)
    }
}

/// The text of a term printed at precedence `prec`: a case binds loosest (level 1), a loop
/// at level 2; a construct is parenthesised when printed at a higher level than its own.
pub open spec fn spec_term_text(t: SpecTerm, prec: nat) -> Seq<char>
    decreases t,
{
    match t {
        SpecTerm::Case { term, exit, then } => {
            let inner = spec_term_text(*term, 2) + ";"@ + (if exit != spec_skip() {
                spec_choice_text(exit) + "->"@
            } else {
                Seq::empty()
            }) + spec_term_text(*then, 1);
            if prec > 1 {
                "("@ + inner + ")"@
            } else {
                inner
            }
        },
        SpecTerm::Loop { term, branch } => {
            let inner = spec_term_text(*term, 2) + "^"@ + spec_choice_text(branch);
            if prec > 2 {
                "("@ + inner + ")"@
            } else {
                inner
            }
        },
        SpecTerm::Abstraction { binds, term, location } => (if location == SpecLocation::Main {
            "<"@ + binds + ">."@
        } else {
            spec_location_text(location) + "<"@ + binds + ">."@
        }) + spec_term_text(*term, 2),
        SpecTerm::Application { function, argument, location } => "["@ + spec_term_text(
            *argument,
            0,
        ) + "]"@ + (if location != SpecLocation::Main {
            spec_location_text(location)
        } else {
            Seq::empty()
        }) + "."@ + spec_term_text(*function, 2),
        SpecTerm::Variable { name } => name,
        SpecTerm::Choice(c) => spec_choice_text(c),
        SpecTerm::Special(s) => spec_special_text(s),
        SpecTerm::Operation(o) => spec_op_text(o),
    }
}

/// The text of an operation.
pub open spec fn spec_op_text(o: SpecOperation) -> Seq<char>
    decreases o,
{
    match o {
        SpecOperation::Read => "read"@,
        SpecOperation::Write { argument } => "print "@ + spec_term_text(*argument, 0),
        SpecOperation::Update { location, argument } => spec_location_text(location) + " := "@
            + spec_term_text(*argument, 0),
        SpecOperation::Lookup { cell } => "$"@ + cell,
        SpecOperation::Rnd { argument1, argument2 } => spec_term_text(*argument1, 0) + " ⊕ "@
            + spec_term_text(*argument2, 0),
        SpecOperation::Sequence { first, second } => spec_term_text(*first, 0) + ";"@
            + spec_term_text(*second, 0),
        SpecOperation::Throw { error_code } => "throw "@ + spec_choice_text(error_code),
        SpecOperation::TryCatch { try_, catch, failure } => "try "@ + spec_term_text(*try_, 0)
            + " catch "@ + spec_choice_text(catch) + " "@ + spec_term_text(*failure, 0),
        SpecOperation::Constant { choice } => spec_choice_text(choice),
        SpecOperation::IfThenElse { condition, then, else_ } => "if "@ + spec_term_text(
            *condition,
            0,
        ) + " then "@ + spec_term_text(*then, 0) + " else "@ + spec_term_text(*else_, 0),
        SpecOperation::Switch { term, cases } => "case "@ + spec_term_text(*term, 0) + " of "@
            + spec_cases_text(cases),
        SpecOperation::DoWhile { term, condition } => "do "@ + spec_term_text(*term, 0)
            + " while "@ + spec_term_text(*condition, 0),
        SpecOperation::WhileDo { condition, term } => "while "@ + spec_term_text(*condition, 0)
            + " do "@ + spec_term_text(*term, 0),
    }
}

/// The branches of a switch: `c1 → t1, c2 → t2, ...`.
pub open spec fn spec_cases_text(cases: Seq<(SpecChoice, SpecTerm)>) -> Seq<char>
    decreases cases,
{
    if cases.len() == 0 {
        Seq::empty()
    } else if cases.len() == 1 {
        spec_choice_text(cases[0].0) + " → "@ + spec_term_text(cases[0].1, 0)
    } else {
        spec_cases_text(cases.drop_last()) + ", "@ + spec_choice_text(cases.last().0) + " → "@
            + spec_term_text(cases.last().1, 0)
    }
}

impl Location {
    /// The text of the location.
    pub fn to_text(&self) -> (r: String)
        ensures
            r@ == spec_location_text(self@),
    {
        let mut s = String::new();
        self.write_text(&mut s);
        assert(s@ =~= spec_location_text(self@));
        s
    }

    /// Appends the text of the location.
    pub fn write_text(&self, out: &mut String)
        ensures
            final(out)@ == old(out)@ + spec_location_text(self@),
    {
        match self {
            Location::Main => push_text(out, "λ"),
            Location::Input => push_text(out, "in"),
            Location::Output => push_text(out, "out"),
            Location::Rnd => push_text(out, "rnd"),
            Location::RndBool => push_text(out, "rnd_b"),
            Location::RndFloat => push_text(out, "rnd_f"),
            Location::Cell(name) => push_text(out, name.as_str()),
            Location::Stack(name) => push_text(out, name.as_str()),
            Location::Local(name) => push_text(out, name.as_str()),
        }
    }
}

impl Special {
    /// The text of the primitive.
    pub fn to_text(&self) -> (r: String)
        ensures
            r@ == spec_special_text(*self),
    {
        let mut s = String::new();
        self.write_text(&mut s);
        assert(s@ =~= spec_special_text(*self));
        s
    }

    /// Appends the text of the primitive.
    pub fn write_text(&self, out: &mut String)
        ensures
            final(out)@ == old(out)@ + spec_special_text(*self),
    {
        match self {
            Special::LogicOr => push_text(out, "||"),
            Special::LogicAnd => push_text(out, "&&"),
            Special::LogicNot => push_text(out, "!"),
            Special::Equal => push_text(out, "=="),
            Special::NotEqual => push_text(out, "!="),
            Special::LessThan => push_text(out, "<"),
            Special::GreaterThan => push_text(out, ">"),
            Special::LessThanEqual => push_text(out, "<="),
            Special::GreaterThanEqual => push_text(out, ">="),
            Special::Addition => push_text(out, "+"),
            Special::Subraction => push_text(out, "-"),
            Special::Multiplication => push_text(out, "*"),
            Special::Division => push_text(out, "/"),
            Special::Modulo => push_text(out, "%"),
            Special::IntCast => push_text(out, "int"),
        }
    }
}

impl Choice {
    /// The text of the choice.
    pub fn to_text(&self) -> (r: String)
        ensures
            r@ == spec_choice_text(self@),
    {
        let mut s = String::new();
        self.write_text(&mut s);
        assert(s@ =~= spec_choice_text(self@));
        s
    }

    /// Appends the text of the choice.
    pub fn write_text(&self, out: &mut String)
        ensures
            final(out)@ == old(out)@ + spec_choice_text(self@),
    {
        match self {
            Choice::Constant(Constant::Integer(i)) => {
                let digits = i32_text(*i);
                push_text(out, digits.as_str());
            },
            Choice::Constant(Constant::Boolean(b)) => {
                if *b {
                    push_text(out, "true")
                } else {
                    push_text(out, "false")
                }
            },
            Choice::Exception(Exception::Skip) => push_text(out, "#"),
            Choice::Exception(Exception::Break) => push_text(out, "break"),
            Choice::Exception(Exception::Return) => push_text(out, "return"),
            Choice::Exception(Exception::Exception(name)) => push_text(out, name.as_str()),
        }
    }
}

impl Term {
    /// The text of the term.
    pub fn to_text(&self) -> (r: String)
        requires
            spec_renderable(self@),
        ensures
            r@ == spec_term_text(self@, 0),
    {
        let mut s = String::new();
        self.write_text(&mut s, 0);
        assert(s@ =~= spec_term_text(self@, 0));
        s
    }

    /// Appends the text of the term printed at precedence `prec`.
    pub fn write_text(&self, out: &mut String, prec: u8)
        requires
            spec_renderable(self@),
        ensures
            final(out)@ == old(out)@ + spec_term_text(self@, prec as nat),
        decreases self,
    {
        let ghost start = out@;
        match self {
            Term::Case { term, exit, then } => {
                let need_parens = prec > 1;
                if need_parens {
                    push_text(out, "(");
                }
                let ghost before = out@;
                term.write_text(out, 2);
                push_text(out, ";");
                let ghost mid = out@;
                if !exit.is_skip() {
                    exit.write_text(out);
                    push_text(out, "->");
                }
                proof {
                    assert(out@ =~= mid + (if exit@ != spec_skip() {
                        spec_choice_text(exit@) + "->"@
                    } else {
                        Seq::empty()
                    }));
                }
                then.write_text(out, 1);
                if need_parens {
                    push_text(out, ")");
                }
                assert(out@ =~= start + spec_term_text(self@, prec as nat));
            },
            Term::Loop { term, branch } => {
                let need_parens = prec > 2;
                if need_parens {
                    push_text(out, "(");
                }
                term.write_text(out, 2);
                push_text(out, "^");
                branch.write_text(out);
                if need_parens {
                    push_text(out, ")");
                }
                assert(out@ =~= start + spec_term_text(self@, prec as nat));
            },
            Term::Abstraction { binds, term, location } => {
                if location.same(&Location::Main) {
                    push_text(out, "<");
                } else {
                    location.write_text(out);
                    push_text(out, "<");
                }
                push_text(out, binds.as_str());
                push_text(out, ">.");
                term.write_text(out, 2);
                assert(out@ =~= start + spec_term_text(self@, prec as nat));
            },
            Term::Application { function, argument, location } => {
                push_text(out, "[");
                argument.write_text(out, 0);
                push_text(out, "]");
                if !location.same(&Location::Main) {
                    location.write_text(out);
                }
                push_text(out, ".");
                function.write_text(out, 2);
                assert(out@ =~= start + spec_term_text(self@, prec as nat));
            },
            Term::Variable { name } => push_text(out, name.as_str()),
            Term::Choice(choice) => choice.write_text(out),
            Term::Special(special) => special.write_text(out),
            Term::Operation(operation) => operation.write_text(out),
        }
    }
}

impl Operation {
    /// The text of the operation.
    pub fn to_text(&self) -> (r: String)
        requires
            spec_op_renderable(self@),
        ensures
            r@ == spec_op_text(self@),
    {
        let mut s = String::new();
        self.write_text(&mut s);
        assert(s@ =~= spec_op_text(self@));
        s
    }

    /// Appends the text of the operation.
    pub fn write_text(&self, out: &mut String)
        requires
            spec_op_renderable(self@),
        ensures
            final(out)@ == old(out)@ + spec_op_text(self@),
        decreases self,
    {
        let ghost start = out@;
        match self {
            Operation::Read => push_text(out, "read"),
            Operation::Write { argument } => {
                push_text(out, "print ");
                argument.write_text(out, 0);
                assert(out@ =~= start + spec_op_text(self@));
            },
            Operation::Update { location, argument } => {
                location.write_text(out);
                push_text(out, " := ");
                argument.write_text(out, 0);
                assert(out@ =~= start + spec_op_text(self@));
            },
            Operation::Lookup { cell } => {
                push_text(out, "$");
                push_text(out, cell.as_str());
                assert(out@ =~= start + spec_op_text(self@));
            },
            Operation::Rnd { argument1, argument2 } => {
                argument1.write_text(out, 0);
                push_text(out, " ⊕ ");
                argument2.write_text(out, 0);
                assert(out@ =~= start + spec_op_text(self@));
            },
            Operation::Sequence { first, second } => {
                first.write_text(out, 0);
                push_text(out, ";");
                second.write_text(out, 0);
                assert(out@ =~= start + spec_op_text(self@));
            },
            Operation::Throw { error_code } => {
                push_text(out, "throw ");
                error_code.write_text(out);
                assert(out@ =~= start + spec_op_text(self@));
            },
            Operation::TryCatch { try_, catch, failure } => {
                push_text(out, "try ");
                try_.write_text(out, 0);
                push_text(out, " catch ");
                catch.write_text(out);
                push_text(out, " ");
                failure.write_text(out, 0);
                assert(out@ =~= start + spec_op_text(self@));
            },
            Operation::Constant { choice } => choice.write_text(out),
            Operation::IfThenElse { condition, then, else_ } => {
                push_text(out, "if ");
                condition.write_text(out, 0);
                push_text(out, " then ");
                then.write_text(out, 0);
                push_text(out, " else ");
                else_.write_text(out, 0);
                assert(out@ =~= start + spec_op_text(self@));
            },
            Operation::Switch { term, cases } => {
                push_text(out, "case ");
                term.write_text(out, 0);
                push_text(out, " of ");
                let ghost head = out@;
                proof {
                    lemma_cases_view(cases@);
                    lemma_cases_renderable(cases@);
                }
                let mut i: usize = 0;
                #[verifier::loop_isolation(false)]
                while i < cases.len()
                    invariant
                        i <= cases.len(),
                        out@ == head + spec_cases_text(cases_view(cases@).take(i as int)),
                    decreases cases.len() - i,
                {
                    let ghost prefix = cases_view(cases@).take(i + 1);
                    proof {
                        assert(prefix.drop_last() =~= cases_view(cases@).take(i as int));
                        assert(prefix.last() == cases_view(cases@)[i as int]);
                        assert(decreases_to!(cases@ => cases@[i as int]));
                        if i == 0 {
                            assert(prefix.len() == 1);
                            assert(prefix[0] == cases_view(cases@)[0]);
                            assert(cases_view(cases@).take(0) =~= Seq::empty());
                        }
                    }
                    if i > 0 {
                        push_text(out, ", ");
                    }
                    cases[i].0.write_text(out);
                    push_text(out, " → ");
                    (&cases[i].1).write_text(out, 0);
                    proof {
                        assert(out@ =~= head + spec_cases_text(prefix));
                    }
                    i = i + 1;
                }
                proof {
                    assert(cases_view(cases@).take(cases.len() as int) =~= cases_view(cases@));
                }
                assert(out@ =~= start + spec_op_text(self@));
            },
            Operation::DoWhile { term, condition } => {
                push_text(out, "do ");
                term.write_text(out, 0);
                push_text(out, " while ");
                condition.write_text(out, 0);
                assert(out@ =~= start + spec_op_text(self@));
            },
            Operation::WhileDo { condition, term } => {
                push_text(out, "while ");
                condition.write_text(out, 0);
                push_text(out, " do ");
                term.write_text(out, 0);
                assert(out@ =~= start + spec_op_text(self@));
            },
        }
    }
}

/// The branches of a renderable switch are renderable one by one.
pub proof fn lemma_cases_renderable(cases: Seq<(Choice, Box<Term>)>)
    requires
        spec_cases_renderable(cases_view(cases)),
    ensures
        forall|i: int| 0 <= i < cases.len() ==> spec_renderable(#[trigger] term_view(&cases[i].1)),
    decreases cases.len(),
{
    lemma_cases_view(cases);
    if cases.len() > 0 {
        lemma_cases_view(cases.drop_last());
        assert(cases_view(cases).drop_last() =~= cases_view(cases.drop_last()));
        lemma_cases_renderable(cases.drop_last());
        assert forall|i: int| 0 <= i < cases.len() implies spec_renderable(
            #[trigger] term_view(&cases[i].1),
        ) by {
            if i < cases.len() - 1 {
                assert(cases[i] == cases.drop_last()[i]);
            } else {
                assert(cases_view(cases).last() == cases_view(cases)[cases.len() - 1]);
            }
        }
    }
}

} // verus!
