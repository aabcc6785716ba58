use lithe::fmc_core::choice::{Constant, Exception};
use lithe::fmc_core::{Choice, Location, Special, Term};
use lithe::interpreter::Interpreter;
use lithe::machines::input::parse_input_term;
use lithe::machines::machine::{MachineType, StepResult};
use lithe::machines::{KrivineMachine, Machine};

const FIB_PROGRAM: &str = r#"
fn fib(n) {
    if ($n <= 1) {
        return 1;
    } else {
        return fib($n - 1) + fib($n - 2);
    }
}

print fib(5);
"#;

const PRIMES_PROGRAM: &str = r#"
n := input;
i := 2;

while ($i <= $n) {
    isprime := true;

    j := 2;
    while ($j <= $i/2) {
        if ($i % $j == 0) {
            isprime := false;
            break;
        }
        j := $j + 1;
    }

    if ($isprime) {
        print $i;
    }

    i := $i + 1;
}
"#;

fn run_with_inputs(program: &str, optimise: bool, inputs: &[&str]) -> (StepResult, Vec<String>) {
    let term = Interpreter::new(true, MachineType::Krivine)
        .compile(program.to_string(), optimise, false)
        .unwrap();
    let mut machine = KrivineMachine::new(term);
    machine.set_silent(true);
    let inputs: Vec<Term> = inputs
        .iter()
        .map(|input| parse_input_term(input).unwrap())
        .collect();
    if !inputs.is_empty() {
        machine.seed_input(inputs);
    }
    let result = machine.run(false);
    (result, machine.output().to_vec())
}

fn lines(values: &[&str]) -> Vec<String> {
    values.iter().map(|v| v.to_string()).collect()
}

#[test]
fn fib_of_five_is_eight() {
    assert_eq!(
        run_with_inputs(FIB_PROGRAM, false, &[]),
        (StepResult::Stop, lines(&["8"]))
    );
}

#[test]
fn a_small_recursion_runs_the_same_when_optimised() {
    let program = FIB_PROGRAM.replace("fib(5)", "fib(3)");
    assert_eq!(
        run_with_inputs(&program, false, &[]),
        (StepResult::Stop, lines(&["3"]))
    );
    assert_eq!(
        run_with_inputs(&program, true, &[]),
        (StepResult::Stop, lines(&["3"]))
    );
}

#[test]
fn primes_up_to_ten() {
    assert_eq!(
        run_with_inputs(PRIMES_PROGRAM, false, &["10"]),
        (StepResult::Stop, lines(&["2", "3", "5", "7"]))
    );
}

#[test]
fn primes_up_to_thirty_when_optimised() {
    assert_eq!(
        run_with_inputs(PRIMES_PROGRAM, true, &["30"]),
        (
            StepResult::Stop,
            lines(&["2", "3", "5", "7", "11", "13", "17", "19", "23", "29"])
        )
    );
}

#[test]
fn the_interpreter_runs_on_the_names_it_compiled_with() {
    let mut interpreter = Interpreter::new(true, MachineType::Stack);
    let result = interpreter
        .interpret(FIB_PROGRAM.to_string(), false, false, false)
        .unwrap();
    assert_eq!(result, StepResult::Stop);
    assert_eq!(interpreter.output(), ["8"]);
    assert!(interpreter.steps() > 0);
}

#[test]
fn logic_and_unary_operators() {
    assert_eq!(
        run_with_inputs("print !(1 < 2) || (3 >= 3 && 2 != 2); print -4 + 1; print int 7;", false, &[]),
        (StepResult::Stop, lines(&["false", "-3", "7"]))
    );
}

#[test]
fn do_while_runs_its_body_first() {
    assert_eq!(
        run_with_inputs("i := 5; do { print $i; i := $i + 1; } while ($i < 3)", false, &[]),
        (StepResult::Stop, lines(&["5"]))
    );
}

#[test]
fn embedded_fmc_runs_as_written() {
    assert_eq!(
        run_with_inputs("\\ [7]out.# \\;", false, &[]),
        (StepResult::Stop, lines(&["7"]))
    );
}

#[test]
fn input_lines_read_as_terms() {
    assert_eq!(
        parse_input_term(" 42\n"),
        Some(Term::Choice(Choice::Constant(Constant::Integer(42))))
    );
    assert_eq!(
        parse_input_term("-7"),
        Some(Term::Choice(Choice::Constant(Constant::Integer(-7))))
    );
    assert_eq!(
        parse_input_term("true"),
        Some(Term::Choice(Choice::Constant(Constant::Boolean(true))))
    );
    assert_eq!(
        parse_input_term("-2147483648"),
        Some(Term::Choice(Choice::Constant(Constant::Integer(i32::MIN))))
    );
    assert_eq!(parse_input_term("2147483648"), None);
    assert_eq!(parse_input_term("12a"), None);
    assert_eq!(parse_input_term("-"), None);
    assert_eq!(parse_input_term(""), None);
}

#[test]
fn a_traced_run_lays_out_each_state() {
    let program = Term::Application {
        function: Box::new(Term::Choice(Choice::skip())),
        argument: Box::new(Term::Choice(Choice::Constant(Constant::Integer(5)))),
        location: Location::Main,
    };
    let mut machine = KrivineMachine::new(program);
    machine.set_silent(true);
    assert_eq!(machine.run(true), StepResult::Stop);
    let table = machine.trace_table();
    assert_eq!(
        table.lines,
        vec![
            "( ελ   , [5].# , ε )".to_string(),
            "( ελ•5 ,     # , ε )".to_string(),
        ]
    );
    assert_eq!(machine.steps, 2);
}

fn reparse(t: &Term) -> Term {
    let source = format!("\\ {} \\;", t.to_text());
    let result = lithe::interpreter::Lexer::new(source).tokenise();
    assert!(result.errors.is_empty());
    lithe::interpreter::Parser::new(result.tokens).parse().unwrap()
}

#[test]
fn printed_terms_parse_back() {
    let v = |name: &str| Term::Variable {
        name: name.to_string(),
    };
    let terms = vec![
        Term::Application {
            function: Box::new(v("f")),
            argument: Box::new(v("x")),
            location: Location::Output,
        },
        Term::Abstraction {
            binds: "x".to_string(),
            term: Box::new(Term::Application {
                function: Box::new(Term::Special(Special::Addition)),
                argument: Box::new(v("x")),
                location: Location::Cell("c".to_string()),
            }),
            location: Location::Input,
        },
        Term::Case {
            term: Box::new(Term::Choice(Choice::Constant(Constant::Boolean(true)))),
            exit: Choice::Constant(Constant::Boolean(true)),
            then: Box::new(Term::Case {
                term: Box::new(Term::Choice(Choice::Exception(Exception::Break))),
                exit: Choice::skip(),
                then: Box::new(Term::Special(Special::LogicNot)),
            }),
        },
        Term::Loop {
            term: Box::new(Term::Case {
                term: Box::new(v("a")),
                exit: Choice::skip(),
                then: Box::new(v("b")),
            }),
            branch: Choice::Exception(Exception::Break),
        },
    ];
    for t in terms {
        assert_eq!(reparse(&t), t, "{}", t.to_text());
    }
}

fn run_rnd_program(program: &str, coins: &[bool]) -> (StepResult, Vec<String>) {
    let term = Interpreter::new(true, MachineType::Krivine)
        .compile(program.to_string(), false, true)
        .unwrap();
    let mut machine = KrivineMachine::new(term);
    machine.set_silent(true);
    let mut next = 0usize;
    loop {
        if machine.need() == lithe::machines::semantics::Need::RandomChoice {
            machine.supply_random(coins[next % coins.len()]);
            next += 1;
        }
        let result = machine.step();
        if result != StepResult::Continue {
            return (result, machine.output().to_vec());
        }
    }
}

#[test]
fn rnd_int_draws_within_its_inclusive_bounds() {
    let program = "print rnd_int(1, 10);";
    assert_eq!(
        run_rnd_program(program, &[false]),
        (StepResult::Stop, lines(&["1"]))
    );
    assert_eq!(
        run_rnd_program(program, &[true, false, false, true]),
        (StepResult::Stop, lines(&["10"]))
    );
    let mut seed: u32 = 12345;
    for _ in 0..20 {
        let mut coins = Vec::new();
        for _ in 0..64 {
            seed = seed.wrapping_mul(1103515245).wrapping_add(12345);
            coins.push((seed >> 16) & 1 == 1);
        }
        let (result, output) = run_rnd_program(program, &coins);
        assert_eq!(result, StepResult::Stop);
        assert_eq!(output.len(), 1);
        let n: i32 = output[0].parse().unwrap();
        assert!((1..=10).contains(&n), "{n}");
    }
}

#[test]
fn rnd_bool_prints_the_drawn_choice() {
    assert_eq!(
        run_rnd_program("print rnd_bool();", &[true]),
        (StepResult::Stop, lines(&["true"]))
    );
    assert_eq!(
        run_rnd_program("print rnd_bool();", &[false]),
        (StepResult::Stop, lines(&["false"]))
    );
}
