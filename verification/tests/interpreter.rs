use lithe::interpreter::Interpreter;
use lithe::machines::machine::{MachineType, StepResult};

fn run(program: &str) -> (StepResult, Vec<String>) {
    let mut interpreter = Interpreter::new(true, MachineType::Krivine);
    let result = interpreter
        .interpret(program.to_string(), false, false, false)
        .unwrap();
    (result, interpreter.output().to_vec())
}

#[test]
fn prints_the_value_of_an_expression() {
    assert_eq!(run("print 1 + 2 * 3;"), (StepResult::Stop, vec!["7".to_string()]));
}

#[test]
fn assignments_update_cells() {
    assert_eq!(
        run("a := 4; a := $a * $a; print $a;"),
        (StepResult::Stop, vec!["16".to_string()])
    );
}

#[test]
fn while_loops_run_until_their_condition_fails() {
    assert_eq!(
        run("i := 0; while ($i < 3) { print $i; i := $i + 1; }"),
        (
            StepResult::Stop,
            vec!["0".to_string(), "1".to_string(), "2".to_string()]
        )
    );
}

#[test]
fn if_statements_choose_a_branch() {
    assert_eq!(
        run("if (1 == 2) { print 1; } else { print 2; }"),
        (StepResult::Stop, vec!["2".to_string()])
    );
}

#[test]
fn functions_return_their_values() {
    assert_eq!(
        run("fn add(x, y) { return $x + $y; } print add(2, 3);"),
        (StepResult::Stop, vec!["5".to_string()])
    );
}

#[test]
fn recursive_functions_call_themselves() {
    assert_eq!(
        run("fn fact(n) { if ($n < 2) { return 1; } return $n * fact($n - 1); } print fact(5);"),
        (StepResult::Stop, vec!["120".to_string()])
    );
}

#[test]
fn compile_errors_report_lexer_and_parser_failures() {
    let mut interpreter = Interpreter::new(true, MachineType::Krivine);
    let lexed = interpreter.compile("a := 1 & 2;".to_string(), false, false);
    let text = lexed.unwrap_err().to_text();
    assert!(text.starts_with("Lexer failed with 1 error(s)\n"), "{text}");

    let parsed = interpreter.compile("print 1".to_string(), false, false);
    let text = parsed.unwrap_err().to_text();
    assert_eq!(
        text,
        "Parser failed\nexpected `;` after print statement; expected SemiColon (found EOF)\n  at line 1, column 8"
    );
}

#[test]
fn interpret_runs_the_rnd_library_with_supplied_choices() {
    let mut interpreter = Interpreter::new(true, MachineType::Krivine);
    let result = interpreter.interpret_supplied(
        "print rnd_int(1, 10);".to_string(),
        false,
        false,
        true,
        Vec::new(),
        vec![true, false, false, true],
    );
    assert_eq!(result.unwrap(), StepResult::Stop);
    assert_eq!(interpreter.output().to_vec(), vec!["10".to_string()]);
}

#[test]
fn interpret_fails_when_the_supplied_choices_run_out() {
    let mut interpreter = Interpreter::new(true, MachineType::Krivine);
    let result = interpreter.interpret_supplied(
        "print rnd_bool();".to_string(),
        false,
        false,
        true,
        Vec::new(),
        Vec::new(),
    );
    assert_eq!(result.unwrap(), StepResult::Failure);
}

#[test]
fn interpret_reads_supplied_input_lines() {
    let mut interpreter = Interpreter::new(true, MachineType::Krivine);
    let inputs = vec![lithe::machines::input::parse_input_term("7").unwrap()];
    let result = interpreter.interpret_supplied(
        "n := input; print $n + 1;".to_string(),
        false,
        false,
        false,
        inputs,
        Vec::new(),
    );
    assert_eq!(result.unwrap(), StepResult::Stop);
    assert_eq!(interpreter.output().to_vec(), vec!["8".to_string()]);
}

#[test]
fn interpret_draws_random_choices_for_the_rnd_library() {
    for _ in 0..10 {
        let mut interpreter = Interpreter::new(true, MachineType::Krivine);
        let result = interpreter.interpret("print rnd_int(1, 10);".to_string(), false, false, true);
        assert_eq!(result.unwrap(), StepResult::Stop);
        let output = interpreter.output().to_vec();
        assert_eq!(output.len(), 1);
        let n: i32 = output[0].parse().unwrap();
        assert!((1..=10).contains(&n), "{n}");
    }
}

#[test]
fn rnd_int_bounds_at_the_edges() {
    let mut interpreter = Interpreter::new(true, MachineType::Krivine);
    let result = interpreter.interpret(
        "print rnd_int(3, 3); print rnd_int(5, 2); print rnd_int(0 - 2, 2);".to_string(),
        false,
        false,
        true,
    );
    assert_eq!(result.unwrap(), StepResult::Stop);
    let output = interpreter.output().to_vec();
    assert_eq!(output[0], "3");
    assert_eq!(output[1], "5");
    let n: i32 = output[2].parse().unwrap();
    assert!((-2..=2).contains(&n), "{n}");
}
