use lithe::fmc_core::choice::{Constant, Exception};
use lithe::fmc_core::{Choice, Location, Operation, Special, Term};
use lithe::interpreter::parser::{Parser, ParserError};
use lithe::interpreter::{Lexer, TokenType};

fn parse(source: &str) -> Result<Term, ParserError> {
    let result = Lexer::new(source.to_string()).tokenise();
    assert!(
        result.errors.is_empty(),
        "lexer errors in parser test: {:?}",
        result.errors
    );
    Parser::new(result.tokens).parse()
}

fn v(name: &str) -> Term {
    Term::Variable {
        name: name.to_string(),
    }
}

fn int_expr(value: i32) -> Term {
    Term::Application {
        function: Box::new(Term::Choice(Choice::skip())),
        argument: Box::new(Term::Choice(Choice::Constant(Constant::Integer(value)))),
        location: Location::Main,
    }
}

#[test]
fn parses_assignment_statement_to_update_operation() {
    let parsed = parse("a := 5;").unwrap();

    assert_eq!(
        parsed,
        Term::Operation(Operation::Update {
            location: Location::Cell("a".to_string()),
            argument: Box::new(int_expr(5)),
        })
    );
}

#[test]
fn parses_expression_precedence_before_statement_termination() {
    let parsed = parse("1 + 2 * 3;").unwrap();

    assert_eq!(
        parsed,
        Term::Case {
            term: Box::new(int_expr(1)),
            exit: Choice::skip(),
            then: Box::new(Term::Case {
                term: Box::new(Term::Case {
                    term: Box::new(int_expr(2)),
                    exit: Choice::skip(),
                    then: Box::new(Term::Case {
                        term: Box::new(int_expr(3)),
                        exit: Choice::skip(),
                        then: Box::new(Term::Special(Special::Multiplication)),
                    }),
                }),
                exit: Choice::skip(),
                then: Box::new(Term::Special(Special::Addition)),
            }),
        }
    );
}

#[test]
fn parses_multiple_statements_as_sequence_of_cases() {
    let parsed = parse("print 1; break;").unwrap();

    match parsed {
        Term::Case { term, exit, then } => {
            assert_eq!(exit, Choice::skip());
            assert_eq!(*then, Term::Choice(Choice::Exception(Exception::Break)));

            match *term {
                Term::Case {
                    term: printed,
                    exit: printed_exit,
                    then: continuation,
                } => {
                    assert_eq!(*printed, int_expr(1));
                    assert_eq!(printed_exit, Choice::skip());
                    match *continuation {
                        Term::Abstraction { location, .. } => {
                            assert_eq!(location, Location::Main);
                        }
                        other => panic!("expected write continuation, got {other:?}"),
                    }
                }
                other => panic!("expected write expansion, got {other:?}"),
            }
        }
        other => panic!("expected sequenced statements, got {other:?}"),
    }
}

#[test]
fn parses_fmc_application_with_explicit_location() {
    let parsed = parse("\\ [x]out.y \\;").unwrap();

    assert_eq!(
        parsed,
        Term::Application {
            function: Box::new(v("y")),
            argument: Box::new(v("x")),
            location: Location::Output,
        }
    );
}

#[test]
fn parses_function_declaration_and_call() {
    let parsed = parse(
        "
            fn id(x) { return $x; }
            id(5);
            ",
    )
    .unwrap();

    match parsed {
        Term::Application {
            function,
            argument,
            location,
        } => {
            assert_eq!(location, Location::Main);

            match *function {
                Term::Abstraction { binds, .. } => {
                    assert_eq!(binds, "id_f");
                }
                other => panic!("expected function binding abstraction, got {other:?}"),
            }

            match *argument {
                Term::Abstraction {
                    binds, location, ..
                } => {
                    assert_eq!(binds, "x_entry");
                    assert_eq!(location, Location::Main);
                }
                other => panic!("expected function term abstraction, got {other:?}"),
            }
        }
        other => panic!("expected substituted function application, got {other:?}"),
    }
}

#[test]
fn rejects_empty_program() {
    let err = parse("").unwrap_err();

    assert_eq!(err.line, 1);
    assert_eq!(err.column, 1);
    assert_eq!(
        err.message,
        "expected at least one declaration or statement"
    );
    assert_eq!(err.found.token_type, TokenType::EOF);
}

#[test]
fn parses_empty_block_as_skip() {
    let parsed = parse("if (true) {}").unwrap();

    match parsed {
        Term::Case { exit, then, .. } => {
            assert_eq!(exit, Choice::Constant(Constant::Boolean(false)));
            assert_eq!(*then, Term::Choice(Choice::skip()));
        }
        other => panic!("expected if-then-else expansion, got {other:?}"),
    }
}

#[test]
fn reports_missing_semicolon_at_next_token_position() {
    let err = parse("print 1\nprint 2;").unwrap_err();

    assert_eq!(err.line, 2);
    assert_eq!(err.column, 1);
    assert_eq!(
        err.message,
        "expected `;` after print statement; expected SemiColon"
    );
    assert_eq!(err.found.lexeme, "print");
}

#[test]
fn reports_unknown_function_calls() {
    let err = parse("foo();").unwrap_err();

    assert_eq!(err.line, 1);
    assert_eq!(err.column, 5);
    assert_eq!(err.message, "unknown function `foo`");
    assert_eq!(err.found.token_type, TokenType::RParen);
}

#[test]
fn reports_wrong_function_arity() {
    let err = parse(
        "
            fn add(x, y) { return $x; }
            add(1);
            ",
    )
    .unwrap_err();

    assert_eq!(err.line, 3);
    assert_eq!(err.column, 19);
    assert_eq!(
        err.message,
        "expected 2 argument(s) for function `add`, found 1"
    );
    assert_eq!(err.found.lexeme, ";");
}

#[test]
fn parses_input_keyword_as_read_operation() {
    let parsed = parse("a := input;").unwrap();

    assert_eq!(
        parsed,
        Term::Operation(Operation::Update {
            location: Location::Cell("a".to_string()),
            argument: Box::new(Term::Operation(Operation::Read)),
        })
    );
}

#[test]
fn parses_int_cast_as_unary_expression() {
    let parsed = parse("int 4;").unwrap();

    assert_eq!(
        parsed,
        Term::Case {
            term: Box::new(
                Term::Choice(Choice::Constant(Constant::Integer(4))).as_expression()
            ),
            exit: Choice::skip(),
            then: Box::new(Term::Special(Special::IntCast)),
        }
    );
}

#[test]
fn parses_embedded_fmc_as_expression() {
    let parsed = parse("return \\out<x>.[x].#\\;").unwrap();

    match parsed {
        Term::Application { argument, .. } => match *argument {
            Term::Abstraction { location, .. } => assert_eq!(location, Location::Output),
            other => panic!("expected embedded FMC abstraction, got {other:?}"),
        },
        other => panic!("expected return application, got {other:?}"),
    }
}
