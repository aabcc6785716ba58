use lithe::fmc_core::choice::Constant;
use lithe::fmc_core::term::NameSupply;
use lithe::fmc_core::{Choice, Location, Operation, Special, Term};
use lithe::interpreter::Interpreter;
use lithe::machines::machine::MachineType;
use lithe::interpreter::parser::Parser;
use lithe::interpreter::{Lexer, TokenType};
use lithe::machines::machine::StepResult;
use lithe::machines::{KrivineMachine, Machine};

fn v(name: &str) -> Term {
    Term::Variable {
        name: name.to_string(),
    }
}

fn has_operation(t: &Term) -> bool {
    match t {
        Term::Operation(_) => true,
        Term::Application {
            function, argument, ..
        } => has_operation(function) || has_operation(argument),
        Term::Abstraction { term, .. } => has_operation(term),
        Term::Case { term, then, .. } => has_operation(term) || has_operation(then),
        Term::Loop { term, .. } => has_operation(term),
        _ => false,
    }
}

#[test]
fn tokens_end_with_a_single_eof() {
    let tokens = Lexer::new("a := 1; print $a;".to_string()).tokenise().tokens;
    let eofs = tokens
        .iter()
        .filter(|t| t.token_type == TokenType::EOF)
        .count();
    assert_eq!(eofs, 1);
    assert_eq!(tokens.last().unwrap().token_type, TokenType::EOF);
}

#[test]
fn expanded_terms_hold_no_operation() {
    let term = Term::Operation(Operation::WhileDo {
        condition: Box::new(Term::Operation(Operation::Lookup {
            cell: "c".to_string(),
        })),
        term: Box::new(Term::Operation(Operation::Write {
            argument: Box::new(Term::Operation(Operation::Read)),
        })),
    });
    let expanded = term.expand_operations(&mut NameSupply::new());
    assert!(!has_operation(&expanded));
}

#[test]
fn term_lists_name_each_variable_once() {
    let t = Term::Application {
        function: Box::new(v("x")),
        argument: Box::new(Term::Application {
            function: Box::new(v("x")),
            argument: Box::new(Term::Abstraction {
                binds: "y".to_string(),
                term: Box::new(Term::Abstraction {
                    binds: "y".to_string(),
                    term: Box::new(v("z")),
                    location: Location::Main,
                }),
                location: Location::Main,
            }),
            location: Location::Main,
        }),
        location: Location::Main,
    };
    assert_eq!(t.free_variables(), vec!["x".to_string(), "z".to_string()]);
    assert_eq!(t.get_bound_variables(), vec!["y".to_string()]);
    assert_eq!(t.get_all_locations(), vec![Location::Main]);
}

#[test]
fn fresh_names_never_repeat() {
    let mut names = NameSupply::new();
    let a = Term::id(&mut names);
    let b = Term::id(&mut names);
    assert_ne!(a, b);
    assert_eq!(names.next_var, 3);
}

#[test]
fn a_successful_parse_reads_every_token() {
    let tokens = Lexer::new("print 1; print 2;".to_string()).tokenise().tokens;
    let count = tokens.len();
    let mut parser = Parser::new(tokens);
    assert!(parser.parse().is_ok());
    assert_eq!(count, 7);
}

#[test]
fn each_step_counts_once_and_writes_at_most_one_line() {
    let program = Term::Application {
        function: Box::new(Term::Application {
            function: Box::new(Term::Choice(Choice::skip())),
            argument: Box::new(Term::Choice(Choice::Constant(Constant::Integer(2)))),
            location: Location::Output,
        }),
        argument: Box::new(Term::Choice(Choice::Constant(Constant::Integer(1)))),
        location: Location::Output,
    };
    let mut machine = KrivineMachine::new(program);
    machine.set_silent(true);
    let mut previous: Vec<String> = Vec::new();
    loop {
        let steps = machine.steps;
        let result = machine.step();
        assert_eq!(machine.steps, steps + 1);
        let now = machine.output().to_vec();
        assert!(now.len() <= previous.len() + 1);
        assert_eq!(&now[..previous.len()], &previous[..]);
        previous = now;
        if result != StepResult::Continue {
            assert_eq!(result, StepResult::Stop);
            break;
        }
    }
    assert_eq!(previous, vec!["1".to_string(), "2".to_string()]);
}

#[test]
fn a_pushed_term_is_popped_back() {
    let program = Term::Application {
        function: Box::new(Term::Abstraction {
            binds: "x".to_string(),
            term: Box::new(Term::Application {
                function: Box::new(Term::Choice(Choice::skip())),
                argument: Box::new(v("x")),
                location: Location::Output,
            }),
            location: Location::Stack("s".to_string()),
        }),
        argument: Box::new(Term::Choice(Choice::Constant(Constant::Boolean(false)))),
        location: Location::Stack("s".to_string()),
    };
    let mut machine = KrivineMachine::new(program);
    machine.set_silent(true);
    assert_eq!(machine.run(false), StepResult::Stop);
    assert_eq!(machine.output(), ["false"]);
}

#[test]
fn variables_resolve_through_chains_of_bindings() {
    let program = Term::Application {
        function: Box::new(Term::Abstraction {
            binds: "a".to_string(),
            term: Box::new(Term::Application {
                function: Box::new(Term::Abstraction {
                    binds: "b".to_string(),
                    term: Box::new(Term::Application {
                        function: Box::new(Term::Choice(Choice::skip())),
                        argument: Box::new(v("b")),
                        location: Location::Output,
                    }),
                    location: Location::Main,
                }),
                argument: Box::new(v("a")),
                location: Location::Main,
            }),
            location: Location::Main,
        }),
        argument: Box::new(Term::Choice(Choice::Constant(Constant::Integer(3)))),
        location: Location::Main,
    };
    let mut machine = KrivineMachine::new(program);
    machine.set_silent(true);
    assert_eq!(machine.run(false), StepResult::Stop);
    assert_eq!(machine.output(), ["3"]);
}

#[test]
fn printed_terms_compile_back() {
    let term = Term::Case {
        term: Box::new(Term::Abstraction {
            binds: "x".to_string(),
            term: Box::new(Term::Application {
                function: Box::new(Term::Special(Special::LessThan)),
                argument: Box::new(v("x")),
                location: Location::Local("c".to_string()),
            }),
            location: Location::Input,
        }),
        exit: Choice::Constant(Constant::Integer(7)),
        then: Box::new(Term::Loop {
            term: Box::new(v("y")),
            branch: Choice::Constant(Constant::Boolean(false)),
        }),
    };
    let expected = Term::Case {
        term: Box::new(Term::Abstraction {
            binds: "x".to_string(),
            term: Box::new(Term::Application {
                function: Box::new(Term::Special(Special::LessThan)),
                argument: Box::new(v("x")),
                location: Location::Cell("c".to_string()),
            }),
            location: Location::Input,
        }),
        exit: Choice::Constant(Constant::Integer(7)),
        then: Box::new(Term::Loop {
            term: Box::new(v("y")),
            branch: Choice::Constant(Constant::Boolean(false)),
        }),
    };
    let source = format!("\\ {} \\;", term.to_text());
    assert_eq!(source, "\\ in<x>.[x]c.<;7->y^false \\;");
    let mut interpreter = Interpreter::new(true, MachineType::Krivine);
    let compiled = interpreter.compile(source, false, false).unwrap();
    assert_eq!(compiled, expected);
}

#[test]
fn a_printed_term_with_the_underscore_name_compiles_back() {
    let term = Term::Abstraction {
        binds: "_".to_string(),
        term: Box::new(Term::Application {
            function: Box::new(v("_")),
            argument: Box::new(v("y")),
            location: Location::Cell("_".to_string()),
        }),
        location: Location::Main,
    };
    let source = format!("\\ {} \\;", term.to_text());
    let mut interpreter = Interpreter::new(true, MachineType::Krivine);
    assert_eq!(interpreter.compile(source, false, false).unwrap(), term);
}
