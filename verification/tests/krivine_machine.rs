use lithe::fmc_core::choice::Constant;
use lithe::fmc_core::{Choice, Location, Special, Term};
use lithe::machines::machine::StepResult;
use lithe::machines::semantics::Need;
use lithe::machines::{KrivineMachine, Machine};

fn int_term(value: i32) -> Term {
    Term::Choice(Choice::Constant(Constant::Integer(value)))
}

fn bool_term(value: bool) -> Term {
    Term::Choice(Choice::Constant(Constant::Boolean(value)))
}

fn push(argument: Term, location: Location, then: Term) -> Term {
    Term::Application {
        function: Box::new(then),
        argument: Box::new(argument),
        location,
    }
}

fn pop(binds: &str, location: Location, body: Term) -> Term {
    Term::Abstraction {
        binds: binds.to_string(),
        term: Box::new(body),
        location,
    }
}

fn var(name: &str) -> Term {
    Term::Variable {
        name: name.to_string(),
    }
}

fn skip() -> Term {
    Term::Choice(Choice::skip())
}

/// Runs `[a].[b].op` and prints the result.
fn binary(a: Term, b: Term, op: Special) -> (StepResult, Vec<String>) {
    let program = push(
        a,
        Location::Main,
        push(
            b,
            Location::Main,
            Term::Case {
                term: Box::new(Term::Special(op)),
                exit: Choice::skip(),
                then: Box::new(pop(
                    "r",
                    Location::Main,
                    push(var("r"), Location::Output, skip()),
                )),
            },
        ),
    );
    let mut machine = KrivineMachine::new(program);
    machine.set_silent(true);
    let result = machine.run(false);
    (result, machine.output().to_vec())
}

#[test]
fn run_returns_terminal_step_result_and_captures_output() {
    let mut machine = KrivineMachine::new(Term::Application {
        function: Box::new(Term::Choice(Choice::skip())),
        argument: Box::new(Term::Choice(Choice::Constant(Constant::Integer(5)))),
        location: Location::Output,
    });
    machine.set_silent(true);

    let result = machine.run(false);

    assert_eq!(result, StepResult::Stop);
    assert_eq!(machine.output(), ["5"]);
    assert_eq!(machine.output_buffer(), ["5"]);
}

#[test]
fn arithmetic_primitives_take_the_second_operand_from_the_top() {
    assert_eq!(binary(int_term(7), int_term(2), Special::Subraction), (StepResult::Stop, vec!["5".to_string()]));
    assert_eq!(binary(int_term(7), int_term(2), Special::Division), (StepResult::Stop, vec!["3".to_string()]));
    assert_eq!(binary(int_term(-7), int_term(2), Special::Modulo), (StepResult::Stop, vec!["-1".to_string()]));
    assert_eq!(binary(int_term(6), int_term(7), Special::Multiplication), (StepResult::Stop, vec!["42".to_string()]));
    assert_eq!(binary(int_term(2), int_term(3), Special::LessThan), (StepResult::Stop, vec!["true".to_string()]));
    assert_eq!(binary(int_term(3), int_term(3), Special::GreaterThanEqual), (StepResult::Stop, vec!["true".to_string()]));
    assert_eq!(binary(bool_term(true), bool_term(false), Special::LogicOr), (StepResult::Stop, vec!["true".to_string()]));
    assert_eq!(binary(bool_term(true), bool_term(false), Special::LogicAnd), (StepResult::Stop, vec!["false".to_string()]));
    assert_eq!(binary(int_term(4), int_term(4), Special::Equal), (StepResult::Stop, vec!["true".to_string()]));
}

#[test]
fn division_by_zero_and_overflow_fail() {
    assert_eq!(binary(int_term(1), int_term(0), Special::Division).0, StepResult::Failure);
    assert_eq!(binary(int_term(1), int_term(0), Special::Modulo).0, StepResult::Failure);
    assert_eq!(binary(int_term(i32::MAX), int_term(1), Special::Addition).0, StepResult::Failure);
    assert_eq!(binary(bool_term(true), int_term(1), Special::Addition).0, StepResult::Failure);
}

#[test]
fn popping_an_empty_stack_fails() {
    let mut machine = KrivineMachine::new(pop("x", Location::Main, var("x")));
    machine.set_silent(true);
    assert_eq!(machine.step(), StepResult::Failure);
}

#[test]
fn an_unwritten_cell_reads_as_zero() {
    let program = pop(
        "x",
        Location::Cell("a".to_string()),
        push(var("x"), Location::Output, skip()),
    );
    let mut machine = KrivineMachine::new(program);
    machine.set_silent(true);
    assert_eq!(machine.run(false), StepResult::Stop);
    assert_eq!(machine.output(), ["0"]);
}

#[test]
fn a_case_continues_on_its_choice_only() {
    let matched = Term::Case {
        term: Box::new(skip()),
        exit: Choice::skip(),
        then: Box::new(push(int_term(1), Location::Output, skip())),
    };
    let mut machine = KrivineMachine::new(matched);
    machine.set_silent(true);
    assert_eq!(machine.run(false), StepResult::Stop);
    assert_eq!(machine.output(), ["1"]);

    let unmatched = Term::Case {
        term: Box::new(bool_term(true)),
        exit: Choice::skip(),
        then: Box::new(push(int_term(1), Location::Output, skip())),
    };
    let mut machine = KrivineMachine::new(unmatched);
    machine.set_silent(true);
    assert_eq!(machine.run(false), StepResult::Stop);
    assert!(machine.output().is_empty());
}

#[test]
fn reading_input_takes_seeded_terms_first_to_last() {
    let program = pop(
        "a",
        Location::Input,
        pop(
            "b",
            Location::Input,
            push(var("a"), Location::Output, push(var("b"), Location::Output, skip())),
        ),
    );
    let mut machine = KrivineMachine::new(program);
    machine.set_silent(true);
    machine.seed_input(vec![int_term(1), int_term(2)]);
    assert_eq!(machine.run(false), StepResult::Stop);
    assert_eq!(machine.output(), ["1", "2"]);
}

#[test]
fn the_machine_asks_for_what_it_cannot_supply_itself() {
    let program = pop("a", Location::Input, push(var("a"), Location::Output, skip()));
    let mut machine = KrivineMachine::new(program);
    machine.set_silent(true);
    assert_eq!(machine.need(), Need::Input);
    machine.supply_input(int_term(9));
    assert_eq!(machine.need(), Need::Nothing);
    assert_eq!(machine.run(false), StepResult::Stop);
    assert_eq!(machine.output(), ["9"]);

    let coin = pop("c", Location::RndBool, push(var("c"), Location::Output, skip()));
    let mut machine = KrivineMachine::new(coin);
    machine.set_silent(true);
    assert_eq!(machine.need(), Need::RandomChoice);
    machine.supply_random(true);
    assert_eq!(machine.run(false), StepResult::Stop);
    assert_eq!(machine.output(), ["true"]);
}

#[test]
fn reading_without_a_supplied_value_fails() {
    let program = pop("a", Location::Input, var("a"));
    let mut machine = KrivineMachine::new(program);
    machine.set_silent(true);
    assert_eq!(machine.step(), StepResult::Failure);
    assert_eq!(machine.steps, 1);
}
