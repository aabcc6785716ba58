use lithe::fmc_core::choice::{Constant, Exception};
use lithe::fmc_core::term::NameSupply;
use lithe::fmc_core::{Choice, Location, Operation, Term};

fn v(name: &str) -> Term {
    Term::Variable {
        name: name.to_string(),
    }
}

fn lam(param: &str, body: Term) -> Term {
    Term::Abstraction {
        binds: param.to_string(),
        term: Box::new(body),
        location: Location::Main,
    }
}

fn app(f: Term, a: Term) -> Term {
    Term::Application {
        function: Box::new(f),
        argument: Box::new(a),
        location: Location::Main,
    }
}

fn sorted(mut h: Vec<String>) -> Vec<String> {
    h.sort();
    h
}

fn sorted_locations(mut h: Vec<Location>) -> Vec<Location> {
    h.sort_by_key(|location| location.to_text());
    h
}

#[test]
fn free_vars_variable() {
    let t = v("x");
    let fv = t.free_variables();
    assert_eq!(sorted(fv), vec!["x"]);
}

#[test]
fn free_vars_abs_and_app() {
    // (\x. x y) z -> free = {y, z}
    let term = app(lam("x", app(v("x"), v("y"))), v("z"));
    let fv = term.free_variables();
    assert_eq!(sorted(fv), vec!["y", "z"]);
}

#[test]
fn free_vars_nested() {
    // \x.\y. x z -> free = {z}
    let term = lam("x", lam("y", app(v("x"), v("z"))));
    let fv = term.free_variables();
    assert_eq!(sorted(fv), vec!["z"]);
}

#[test]
fn substitute_simple_no_capture() {
    let term = app(v("x"), v("y"));
    let out = term.substitute("x", v("z"), &mut NameSupply::new());
    assert_eq!(out, app(v("z"), v("y")));
}

#[test]
fn substitute_bound_variable_ignored() {
    let term = lam("x", app(v("x"), v("y")));
    let out = term.substitute("x", v("z"), &mut NameSupply::new());
    assert_eq!(out, lam("x", app(v("x"), v("y"))));
}

#[test]
fn substitute_capture_avoiding() {
    // substitute y -> x in (\x. y) must not produce (\x. x)
    let term = lam("x", v("y"));
    let out = term.substitute("y", v("x"), &mut NameSupply::new());

    match out {
        Term::Abstraction { binds, term, .. } => {
            assert_ne!(binds, "x", "Failed to avoid capture!");
            assert_eq!(*term, v("x"));
        }
        _ => panic!("Expected abstraction"),
    }
}

#[test]
fn substitute_deep_capture_avoiding() {
    // substitute z -> (x y) in (\x. \y. z)
    let term = lam("x", lam("y", v("z")));
    let repl = app(v("x"), v("y"));
    let out = term.substitute("z", repl.clone(), &mut NameSupply::new());

    match out {
        Term::Abstraction {
            binds: b1,
            term: body1,
            ..
        } => {
            assert_ne!(b1, "x");
            assert_ne!(b1, "y");

            match *body1 {
                Term::Abstraction {
                    binds: b2,
                    term: body2,
                    ..
                } => {
                    assert_ne!(b2, "x");
                    assert_ne!(b2, "y");
                    assert_eq!(*body2, repl);
                }
                _ => panic!("Expected nested abstraction"),
            }
        }
        _ => panic!("Expected abstraction"),
    }
}

#[test]
fn beta_reduce_identity() {
    let id = lam("x", v("x"));
    let term = app(id.clone(), v("y"));
    let nf = term.normal_order(&mut NameSupply::new());
    assert_eq!(nf, v("y"));
}

#[test]
fn beta_reduce_nested() {
    // ((\x. \y. x) a) b -> (\y. a) b -> a
    let term = app(app(lam("x", lam("y", v("x"))), v("a")), v("b"));
    let nf = term.compute_reduction(false, &mut NameSupply::new());
    assert_eq!(nf, v("a"));
}

#[test]
fn beta_reduce_avoids_capture() {
    // ((\x. \y. x y) y) z -> y z
    let term = app(app(lam("x", lam("y", app(v("x"), v("y")))), v("y")), v("z"));
    let nf = term.compute_reduction(false, &mut NameSupply::new());
    assert_eq!(nf, app(v("y"), v("z")));
}

#[test]
fn beta_reduce_normal_form_idempotent() {
    let nf = lam("x", v("x"));
    assert_eq!(nf.clone().compute_reduction(false, &mut NameSupply::new()), nf);
}

#[test]
fn expand_operations_recursively_rewrites_nested_operations() {
    let term = Term::Case {
        term: Box::new(Term::Operation(Operation::Sequence {
            first: Box::new(v("x")),
            second: Box::new(Term::Operation(Operation::Constant {
                choice: Choice::Constant(Constant::Integer(5)),
            })),
        })),
        exit: Choice::Exception(Exception::Break),
        then: Box::new(Term::Loop {
            term: Box::new(Term::Operation(Operation::Throw {
                error_code: Choice::Exception(Exception::Return),
            })),
            branch: Choice::skip(),
        }),
    };

    let expanded = term.expand_operations(&mut NameSupply::new());

    assert_eq!(
        expanded,
        Term::Case {
            term: Box::new(Term::Case {
                term: Box::new(v("x")),
                exit: Choice::skip(),
                then: Box::new(Term::Application {
                    function: Box::new(Term::Choice(Choice::skip())),
                    argument: Box::new(Term::Choice(Choice::Constant(Constant::Integer(5)))),
                    location: Location::Main,
                }),
            }),
            exit: Choice::Exception(Exception::Break),
            then: Box::new(Term::Loop {
                term: Box::new(Term::Choice(Choice::Exception(Exception::Return))),
                branch: Choice::skip(),
            }),
        }
    );
}

#[test]
fn get_bound_variables_collects_from_nested_terms() {
    let term = Term::Case {
        term: Box::new(lam("x", v("x"))),
        exit: Choice::skip(),
        then: Box::new(Term::Loop {
            term: Box::new(lam("y", app(v("x"), v("y")))),
            branch: Choice::Exception(Exception::Break),
        }),
    };

    assert_eq!(sorted(term.get_bound_variables()), vec!["x", "y"]);
}

#[test]
fn rename_variable_updates_binders_and_occurrences() {
    let term = Term::Case {
        term: Box::new(lam("x", app(v("x"), v("y")))),
        exit: Choice::skip(),
        then: Box::new(Term::Loop {
            term: Box::new(v("x")),
            branch: Choice::skip(),
        }),
    };

    let renamed = term.rename_variable("x", "z");

    assert_eq!(
        renamed,
        Term::Case {
            term: Box::new(lam("z", app(v("z"), v("y")))),
            exit: Choice::skip(),
            then: Box::new(Term::Loop {
                term: Box::new(v("z")),
                branch: Choice::skip(),
            }),
        }
    );
}

#[test]
fn freshen_variables_replaces_all_bound_names() {
    let term = lam("x", lam("y", app(v("x"), v("y"))));
    let freshened = term.freshen_variables(&mut NameSupply::new());

    match freshened {
        Term::Abstraction {
            binds: outer,
            term: outer_body,
            ..
        } => {
            assert_ne!(outer, "x");
            assert_ne!(outer, "y");

            match *outer_body {
                Term::Abstraction {
                    binds: inner,
                    term: inner_body,
                    ..
                } => {
                    assert_ne!(inner, "x");
                    assert_ne!(inner, "y");
                    assert_ne!(inner, outer);
                    assert_eq!(*inner_body, app(v(&outer), v(&inner)));
                }
                _ => panic!("expected nested abstraction"),
            }
        }
        _ => panic!("expected abstraction"),
    }
}

#[test]
fn get_all_locations_collects_unique_locations() {
    let term = Term::Case {
        term: Box::new(Term::Abstraction {
            binds: "x".to_string(),
            term: Box::new(Term::Application {
                function: Box::new(v("f")),
                argument: Box::new(v("x")),
                location: Location::Cell("c1".to_string()),
            }),
            location: Location::Local("l1".to_string()),
        }),
        exit: Choice::skip(),
        then: Box::new(Term::Loop {
            term: Box::new(Term::Application {
                function: Box::new(v("g")),
                argument: Box::new(v("y")),
                location: Location::Output,
            }),
            branch: Choice::skip(),
        }),
    };

    assert_eq!(
        sorted_locations(term.get_all_locations()),
        vec![
            Location::Cell("c1".to_string()),
            Location::Local("l1".to_string()),
            Location::Output,
        ]
    );
}

#[test]
fn freshen_locations_renames_only_local_locations() {
    let term = Term::Abstraction {
        binds: "x".to_string(),
        term: Box::new(Term::Application {
            function: Box::new(v("f")),
            argument: Box::new(v("x")),
            location: Location::Local("l1".to_string()),
        }),
        location: Location::Cell("c1".to_string()),
    };

    let freshened = term.freshen_locations(&mut NameSupply::new());

    match freshened {
        Term::Abstraction { location, term, .. } => {
            assert_eq!(location, Location::Cell("c1".to_string()));
            match *term {
                Term::Application { location, .. } => match location {
                    Location::Local(name) => assert_ne!(name, "l1"),
                    other => panic!("expected local location, got {other:?}"),
                },
                other => panic!("expected application, got {other:?}"),
            }
        }
        other => panic!("expected abstraction, got {other:?}"),
    }
}

#[test]
fn rename_cells_updates_only_matching_cell_locations() {
    let term = Term::Case {
        term: Box::new(Term::Abstraction {
            binds: "x".to_string(),
            term: Box::new(v("x")),
            location: Location::Cell("c1".to_string()),
        }),
        exit: Choice::skip(),
        then: Box::new(Term::Application {
            function: Box::new(v("f")),
            argument: Box::new(v("y")),
            location: Location::Cell("c2".to_string()),
        }),
    };

    let renamed = term.rename_cells("c1".to_string(), "c9".to_string());

    assert_eq!(
        renamed,
        Term::Case {
            term: Box::new(Term::Abstraction {
                binds: "x".to_string(),
                term: Box::new(v("x")),
                location: Location::Cell("c9".to_string()),
            }),
            exit: Choice::skip(),
            then: Box::new(Term::Application {
                function: Box::new(v("f")),
                argument: Box::new(v("y")),
                location: Location::Cell("c2".to_string()),
            }),
        }
    );
}

#[test]
fn switch_cell_to_local_converts_cell_locations_recursively() {
    let term = Term::Loop {
        term: Box::new(Term::Application {
            function: Box::new(Term::Abstraction {
                binds: "x".to_string(),
                term: Box::new(v("x")),
                location: Location::Cell("c1".to_string()),
            }),
            argument: Box::new(v("y")),
            location: Location::Cell("c2".to_string()),
        }),
        branch: Choice::skip(),
    };

    let switched = term.switch_cell_to_local();

    assert_eq!(
        switched,
        Term::Loop {
            term: Box::new(Term::Application {
                function: Box::new(Term::Abstraction {
                    binds: "x".to_string(),
                    term: Box::new(v("x")),
                    location: Location::Local("c1".to_string()),
                }),
                argument: Box::new(v("y")),
                location: Location::Local("c2".to_string()),
            }),
            branch: Choice::skip(),
        }
    );
}

#[test]
fn rename_locals_updates_only_matching_local_locations() {
    let term = Term::Case {
        term: Box::new(Term::Abstraction {
            binds: "x".to_string(),
            term: Box::new(v("x")),
            location: Location::Local("l1".to_string()),
        }),
        exit: Choice::skip(),
        then: Box::new(Term::Application {
            function: Box::new(v("f")),
            argument: Box::new(v("y")),
            location: Location::Local("l2".to_string()),
        }),
    };

    let renamed = term.rename_locals("l1".to_string(), "l9".to_string());

    assert_eq!(
        renamed,
        Term::Case {
            term: Box::new(Term::Abstraction {
                binds: "x".to_string(),
                term: Box::new(v("x")),
                location: Location::Local("l9".to_string()),
            }),
            exit: Choice::skip(),
            then: Box::new(Term::Application {
                function: Box::new(v("f")),
                argument: Box::new(v("y")),
                location: Location::Local("l2".to_string()),
            }),
        }
    );
}

#[test]
fn church_true_selects_first_argument_after_reduction() {
    let mut names = NameSupply::new();
    let term = app(app(Term::church_true(&mut names), v("a")), v("b"));
    assert_eq!(term.compute_reduction(false, &mut names), v("a"));
}

#[test]
fn church_false_selects_second_argument_after_reduction() {
    let mut names = NameSupply::new();
    let term = app(app(Term::church_false(&mut names), v("a")), v("b"));
    assert_eq!(term.compute_reduction(false, &mut names), v("b"));
}

#[test]
fn id_is_an_identity_abstraction() {
    match Term::id(&mut NameSupply::new()) {
        Term::Abstraction {
            binds,
            term,
            location,
        } => {
            assert_eq!(location, Location::Main);
            assert_eq!(*term, v(&binds));
        }
        other => panic!("expected abstraction, got {other:?}"),
    }
}

#[test]
fn y_combinator_has_expected_self_application_shape() {
    match Term::y(&mut NameSupply::new()) {
        Term::Abstraction {
            binds: f,
            term,
            location,
        } => {
            assert_eq!(location, Location::Main);
            match *term {
                Term::Application {
                    function,
                    argument,
                    location,
                } => {
                    assert_eq!(location, Location::Main);
                    assert_eq!(*function, *argument);

                    match *function {
                        Term::Abstraction {
                            binds: x,
                            term,
                            location,
                        } => {
                            assert_eq!(location, Location::Main);
                            assert_eq!(
                                *term,
                                Term::Application {
                                    function: Box::new(v(&f)),
                                    argument: Box::new(Term::Application {
                                        function: Box::new(v(&x)),
                                        argument: Box::new(v(&x)),
                                        location: Location::Main,
                                    }),
                                    location: Location::Main,
                                }
                            );
                        }
                        other => panic!("expected inner abstraction, got {other:?}"),
                    }
                }
                other => panic!("expected self-application, got {other:?}"),
            }
        }
        other => panic!("expected abstraction, got {other:?}"),
    }
}

#[test]
fn free_variables_keep_occurrences_outside_a_binder() {
    // [x].<x>.x: the argument x lies under no binder.
    let term = Term::Application {
        function: Box::new(lam("x", v("x"))),
        argument: Box::new(v("x")),
        location: Location::Main,
    };
    assert_eq!(term.free_variables(), vec!["x".to_string()]);
    // y applied to <y>.y: the y in function position is free.
    let term = Term::Application {
        function: Box::new(v("y")),
        argument: Box::new(lam("y", v("y"))),
        location: Location::Main,
    };
    assert_eq!(term.free_variables(), vec!["y".to_string()]);
}

#[test]
fn substitution_does_not_capture_a_free_variable_of_the_argument() {
    // <y>.x with x := (y applied to <y>.y): the binder y must be renamed.
    let with = Term::Application {
        function: Box::new(v("y")),
        argument: Box::new(lam("y", v("y"))),
        location: Location::Main,
    };
    let mut names = NameSupply::new();
    let out = lam("y", v("x")).substitute("x", with.clone(), &mut names);
    match out {
        Term::Abstraction { binds, term, .. } => {
            assert_ne!(binds, "y");
            assert_eq!(*term, with);
        }
        other => panic!("expected abstraction, got {other:?}"),
    }
}

#[test]
fn substitution_renames_with_the_next_fresh_name() {
    let mut names = NameSupply::new();
    let out = lam("x", v("y")).substitute("y", v("x"), &mut names);
    assert_eq!(out, lam("x1", v("x")));
    assert_eq!(names.next_var, 2);
}

#[test]
fn fresh_names_count_up() {
    let mut names = NameSupply::new();
    assert_eq!(lithe::fmc_core::term::fresh_var(&mut names), "x1");
    assert_eq!(lithe::fmc_core::term::fresh_var(&mut names), "x2");
    assert_eq!(lithe::fmc_core::term::fresh_location(&mut names), "c1");
}

#[test]
fn terms_render_with_precedence() {
    let term = Term::Case {
        term: Box::new(Term::Case {
            term: Box::new(v("a")),
            exit: Choice::skip(),
            then: Box::new(v("b")),
        }),
        exit: Choice::Exception(Exception::Break),
        then: Box::new(Term::Application {
            function: Box::new(v("f")),
            argument: Box::new(Term::Choice(Choice::Constant(Constant::Integer(-3)))),
            location: Location::Output,
        }),
    };
    assert_eq!(term.to_text(), "(a;b);break->[-3]out.f");
    assert_eq!(lam("x", v("x")).to_text(), "<x>.x");
}

#[test]
fn substitution_renames_past_names_already_in_use() {
    // <y>.z with z := (y applied to x1): the next drawn name, x1, is taken, so the binder
    // becomes a longer name.
    let with = Term::Application {
        function: Box::new(v("y")),
        argument: Box::new(v("x1")),
        location: Location::Main,
    };
    let mut names = NameSupply::new();
    let out = lam("y", v("z")).substitute("z", with.clone(), &mut names);
    match out {
        Term::Abstraction { binds, term, .. } => {
            assert_ne!(binds, "y");
            assert_ne!(binds, "x1");
            assert_eq!(*term, with);
            let mut free = Term::Abstraction {
                binds: binds.clone(),
                term: term.clone(),
                location: Location::Main,
            }
            .free_variables();
            free.sort();
            assert_eq!(free, vec!["x1".to_string(), "y".to_string()]);
        }
        other => panic!("expected abstraction, got {other:?}"),
    }
}
