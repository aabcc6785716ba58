use lithe::fmc_core::choice::{Constant, Exception};
use lithe::fmc_core::term::NameSupply;
use lithe::fmc_core::{Choice, Location, Operation, Term};

fn v(name: &str) -> Term {
    Term::Variable {
        name: name.to_string(),
    }
}

fn int_term(value: i32) -> Term {
    Term::Choice(Choice::Constant(Constant::Integer(value)))
}

fn bool_choice(value: bool) -> Choice {
    Choice::Constant(Constant::Boolean(value))
}

#[test]
fn expands_read_to_input_identity_abstraction() {
    let expanded = Operation::Read.expand(&mut NameSupply::new());

    match expanded {
        Term::Abstraction {
            binds,
            term,
            location,
        } => {
            assert_eq!(location, Location::Input);
            assert_eq!(*term, v(&binds).as_expression());
        }
        other => panic!("unexpected expansion: {other:?}"),
    }
}

#[test]
fn expands_write_to_case_followed_by_output_application() {
    let argument = v("x");
    let expanded = Operation::Write {
        argument: Box::new(argument.clone()),
    }
    .expand(&mut NameSupply::new());

    match expanded {
        Term::Case { term, exit, then } => {
            assert_eq!(*term, argument);
            assert_eq!(exit, Choice::skip());

            match *then {
                Term::Abstraction {
                    binds,
                    term,
                    location,
                } => {
                    assert_eq!(location, Location::Main);
                    assert_eq!(
                        *term,
                        Term::Application {
                            function: Box::new(Term::Choice(Choice::skip())),
                            argument: Box::new(v(&binds)),
                            location: Location::Output,
                        }
                    );
                }
                other => panic!("unexpected continuation: {other:?}"),
            }
        }
        other => panic!("unexpected expansion: {other:?}"),
    }
}

#[test]
fn expands_update_to_case_with_nested_abstractions() {
    let argument = int_term(5);
    let location = Location::Cell("c1".to_string());
    let expanded = Operation::Update {
        location: location.clone(),
        argument: Box::new(argument.clone()),
    }
    .expand(&mut NameSupply::new());

    match expanded {
        Term::Case { term, exit, then } => {
            assert_eq!(*term, argument);
            assert_eq!(exit, Choice::skip());

            match *then {
                Term::Abstraction {
                    binds,
                    term,
                    location: outer_location,
                } => {
                    assert_eq!(outer_location, Location::Main);

                    match *term {
                        Term::Abstraction {
                            binds: inner_binds,
                            term,
                            location: inner_location,
                        } => {
                            assert_eq!(inner_binds, "_");
                            assert_eq!(inner_location, location);
                            assert_eq!(
                                *term,
                                Term::Application {
                                    function: Box::new(Term::Choice(Choice::skip())),
                                    argument: Box::new(v(&binds)),
                                    location: location.clone(),
                                }
                            );
                        }
                        other => panic!("unexpected inner abstraction: {other:?}"),
                    }
                }
                other => panic!("unexpected continuation: {other:?}"),
            }
        }
        other => panic!("unexpected expansion: {other:?}"),
    }
}

#[test]
fn expands_lookup_to_cell_abstraction_reusing_the_lookup_value() {
    let expanded = Operation::Lookup {
        cell: "c1".to_string(),
    }
    .expand(&mut NameSupply::new());

    match expanded {
        Term::Abstraction {
            binds,
            term,
            location,
        } => {
            assert_eq!(location, Location::Cell("c1".to_string()));
            assert_eq!(
                *term,
                Term::Application {
                    function: Box::new(Term::Application {
                        function: Box::new(Term::Choice(Choice::skip())),
                        argument: Box::new(v(&binds)),
                        location: Location::Main,
                    }),
                    argument: Box::new(v(&binds)),
                    location: Location::Cell("c1".to_string()),
                }
            );
        }
        other => panic!("unexpected expansion: {other:?}"),
    }
}

#[test]
fn expands_rnd_to_rnd_abstraction() {
    let expanded = Operation::Rnd {
        argument1: Box::new(v("left")),
        argument2: Box::new(v("right")),
    }
    .expand(&mut NameSupply::new());

    assert_eq!(
        expanded,
        Term::Abstraction {
            binds: "x".to_string(),
            term: Box::new(Term::Application {
                function: Box::new(Term::Application {
                    function: Box::new(v("x")),
                    argument: Box::new(v("left")),
                    location: Location::Main,
                }),
                argument: Box::new(v("right")),
                location: Location::Main,
            }),
            location: Location::Rnd,
        }
    );
}

#[test]
fn expands_simple_control_flow_variants() {
    let mut names = NameSupply::new();
    let first = v("first");
    let second = v("second");
    assert_eq!(
        Operation::Sequence {
            first: Box::new(first.clone()),
            second: Box::new(second.clone()),
        }
        .expand(&mut names),
        Term::Case {
            term: Box::new(first),
            exit: Choice::skip(),
            then: Box::new(second),
        }
    );

    assert_eq!(
        Operation::Throw {
            error_code: Choice::Exception(Exception::Return),
        }
        .expand(&mut names),
        Term::Choice(Choice::Exception(Exception::Return))
    );

    assert_eq!(
        Operation::TryCatch {
            try_: Box::new(v("try_body")),
            catch: Choice::Exception(Exception::Exception("err".to_string())),
            failure: Box::new(v("recover")),
        }
        .expand(&mut names),
        Term::Case {
            term: Box::new(v("try_body")),
            exit: Choice::Exception(Exception::Exception("err".to_string())),
            then: Box::new(v("recover")),
        }
    );

    assert_eq!(
        Operation::Constant {
            choice: Choice::Constant(Constant::Integer(9)),
        }
        .expand(&mut names),
        Term::Application {
            function: Box::new(Term::Choice(Choice::skip())),
            argument: Box::new(Term::Choice(Choice::Constant(Constant::Integer(9)))),
            location: Location::Main,
        }
    );
}

#[test]
fn expands_if_then_else_to_nested_cases() {
    let condition = v("cond");
    let then_branch = v("then_branch");
    let else_branch = v("else_branch");

    let expanded = Operation::IfThenElse {
        condition: Box::new(condition.clone()),
        then: Box::new(then_branch.clone()),
        else_: Box::new(else_branch.clone()),
    }
    .expand(&mut NameSupply::new());

    match expanded {
        Term::Case { term, exit, then } => {
            assert_eq!(exit, bool_choice(false));
            assert_eq!(*then, else_branch);

            match *term {
                Term::Case {
                    term: inner_term,
                    exit: inner_exit,
                    then: inner_then,
                } => {
                    assert_eq!(inner_exit, bool_choice(true));
                    assert_eq!(*inner_then, then_branch);

                    match *inner_term {
                        Term::Case {
                            term: seq_term,
                            exit: seq_exit,
                            then: seq_then,
                        } => {
                            assert_eq!(*seq_term, condition);
                            assert_eq!(seq_exit, Choice::skip());

                            match *seq_then {
                                Term::Abstraction {
                                    binds,
                                    term,
                                    location,
                                } => {
                                    assert_eq!(location, Location::Main);
                                    assert_eq!(*term, v(&binds));
                                }
                                other => panic!("unexpected identity term: {other:?}"),
                            }
                        }
                        other => panic!("unexpected sequence expansion: {other:?}"),
                    }
                }
                other => panic!("unexpected inner case: {other:?}"),
            }
        }
        other => panic!("unexpected expansion: {other:?}"),
    }
}

#[test]
fn expands_switch_to_folded_cases() {
    let expanded = Operation::Switch {
        term: Box::new(v("subject")),
        cases: vec![
            (Choice::Constant(Constant::Integer(1)), Box::new(v("one"))),
            (Choice::Constant(Constant::Integer(2)), Box::new(v("two"))),
        ],
    }
    .expand(&mut NameSupply::new());

    match expanded {
        Term::Case { term, exit, then } => {
            assert_eq!(exit, Choice::Constant(Constant::Integer(2)));
            assert_eq!(*then, v("two"));

            match *term {
                Term::Case {
                    term: inner_term,
                    exit: inner_exit,
                    then: inner_then,
                } => {
                    assert_eq!(inner_exit, Choice::Constant(Constant::Integer(1)));
                    assert_eq!(*inner_then, v("one"));

                    match *inner_term {
                        Term::Case {
                            term: seq_term,
                            exit: seq_exit,
                            then: seq_then,
                        } => {
                            assert_eq!(*seq_term, v("subject"));
                            assert_eq!(seq_exit, Choice::skip());

                            match *seq_then {
                                Term::Abstraction {
                                    binds,
                                    term,
                                    location,
                                } => {
                                    assert_eq!(location, Location::Main);
                                    assert_eq!(*term, v(&binds));
                                }
                                other => panic!("unexpected identity term: {other:?}"),
                            }
                        }
                        other => panic!("unexpected sequence expansion: {other:?}"),
                    }
                }
                other => panic!("unexpected inner case: {other:?}"),
            }
        }
        other => panic!("unexpected expansion: {other:?}"),
    }
}

#[test]
fn expands_do_while_and_while_do_with_break_handling() {
    let mut names = NameSupply::new();
    let do_while = Operation::DoWhile {
        term: Box::new(v("body")),
        condition: Box::new(v("cond")),
    }
    .expand(&mut names);
    let while_do = Operation::WhileDo {
        condition: Box::new(v("cond")),
        term: Box::new(v("body")),
    }
    .expand(&mut names);

    match do_while {
        Term::Case { exit, then, .. } => {
            assert_eq!(exit, Choice::Exception(Exception::Break));
            assert_eq!(*then, Term::Choice(Choice::skip()));
        }
        other => panic!("unexpected do-while expansion: {other:?}"),
    }

    match while_do {
        Term::Case { exit, then, .. } => {
            assert_eq!(exit, Choice::Exception(Exception::Break));
            assert_eq!(*then, Term::Choice(Choice::skip()));
        }
        other => panic!("unexpected while-do expansion: {other:?}"),
    }
}

#[test]
fn expanded_names_are_drawn_in_order() {
    let mut names = NameSupply::new();
    let first = Operation::Read.expand(&mut names);
    let second = Operation::Read.expand(&mut names);
    match (first, second) {
        (Term::Abstraction { binds: a, .. }, Term::Abstraction { binds: b, .. }) => {
            assert_eq!(a, "x1");
            assert_eq!(b, "x2");
        }
        other => panic!("unexpected expansions: {other:?}"),
    }
    assert_eq!(names.next_var, 3);
}

#[test]
fn rnd_binder_avoids_the_arguments_variables() {
    let expanded = Operation::Rnd {
        argument1: Box::new(v("x")),
        argument2: Box::new(v("z")),
    }
    .expand(&mut NameSupply::new());

    assert_eq!(
        expanded,
        Term::Abstraction {
            binds: "xxz".to_string(),
            term: Box::new(Term::Application {
                function: Box::new(Term::Application {
                    function: Box::new(v("xxz")),
                    argument: Box::new(v("x")),
                    location: Location::Main,
                }),
                argument: Box::new(v("z")),
                location: Location::Main,
            }),
            location: Location::Rnd,
        }
    );
}
