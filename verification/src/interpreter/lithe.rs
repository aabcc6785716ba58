use vstd::prelude::*;

use crate::fmc_core::location::SpecLocation;
use crate::fmc_core::term::{
    lemma_expand_operations_no_ops, lemma_reduction_keeps_no_ops, spec_no_ops, spec_expand_operations, spec_reduction_loop, terms_view, NameSupply, SpecTerm, Term,
};
use crate::interpreter::grammar::{rule_program, SpecParser, SpecParserError};
use crate::interpreter::lexer::{
    errors_view, spec_lexer_error_text, spec_tokenise, tokens_view, Lexer, LexerError,
    SpecLexerError,
};
use crate::interpreter::parser::{spec_parser_error_text, Parser, ParserError};
use crate::machines::krivine_machine::KrivineMachine;
use crate::machines::machine::{Machine, MachineType, StepResult};
use crate::machines::semantics::{spec_drive, spec_run, SpecMachine};
use crate::machines::trace::{
    spec_drive_trace, spec_drive_traceable, spec_run_trace, spec_table_of, spec_traceable, SpecState,
};
use crate::text::{concat, owned, push_text, spec_digits, usize_text};

verus! {

/// Compiles Lithe programs to terms and runs them on a machine.
pub struct Interpreter {
    silent: bool,
    machine_type: MachineType,
    names: NameSupply,
    rnd_library: String,
    output: Vec<String>,
    trace: Vec<String>,
    steps: u32,
}

/// Why a program could not be compiled: the lexical errors, or the parse error.
#[derive(Debug)]
pub enum CompileError {
    Lexer(Vec<LexerError>),
    Parser(ParserError),
}

/// The value of a compile error.
pub enum SpecCompileError {
    Lexer(Seq<SpecLexerError>),
    Parser(SpecParserError),
}

impl View for CompileError {
    type V = SpecCompileError;

    open spec fn view(&self) -> SpecCompileError {
        match self {
            CompileError::Lexer(errors) => SpecCompileError::Lexer(errors_view(errors@)),
            CompileError::Parser(e) => SpecCompileError::Parser(e@),
        }
    }
}

/// The value of a compile outcome.
pub open spec fn compile_outcome(r: Result<Term, CompileError>) -> Result<SpecTerm, SpecCompileError> {
    match r {
        Ok(t) => Ok(t@),
        Err(e) => Err(e@),
    }
}

/// The texts of lexical errors, separated by a blank line.
pub open spec fn spec_lexer_errors_text(errors: Seq<SpecLexerError>) -> Seq<char>
    decreases errors.len(),
{
    if errors.len() == 0 {
        Seq::empty()
    } else if errors.len() == 1 {
        spec_lexer_error_text(errors[0])
    } else {
        spec_lexer_errors_text(errors.drop_last()) + "\n\n"@ + spec_lexer_error_text(errors.last())
    }
}

/// The text of a compile error.
pub open spec fn spec_compile_error_text(e: SpecCompileError) -> Seq<char> {
    match e {
        SpecCompileError::Lexer(errors) => "Lexer failed with "@ + spec_digits(errors.len())
            + " error(s)\n"@ + spec_lexer_errors_text(errors),
        SpecCompileError::Parser(error) => "Parser failed\n"@ + spec_parser_error_text(error),
    }
}

impl CompileError {
    /// The error as text: the lexical errors, counted and separated by blank lines, or the
    /// parse error.
    pub fn to_text(&self) -> (r: String)
        ensures
            r@ == spec_compile_error_text(self@),
    {
        match self {
            CompileError::Lexer(errors) => {
                let mut text = owned("Lexer failed with ");
                push_text(&mut text, usize_text(errors.len()).as_str());
                push_text(&mut text, " error(s)\n");
                let ghost head = text@;
                let mut i: usize = 0;
                proof {
                    assert(errors_view(errors@).subrange(0, 0) =~= Seq::<SpecLexerError>::empty());
                    assert(text@ =~= head + Seq::<char>::empty());
                }
                while i < errors.len()
                    invariant
                        i <= errors.len(),
                        text@ == head + spec_lexer_errors_text(
                            errors_view(errors@).subrange(0, i as int),
                        ),
                    decreases errors.len() - i,
                {
                    let ghost all = errors_view(errors@);
                    proof {
                        assert(all.subrange(0, i + 1).drop_last() =~= all.subrange(0, i as int));
                    }
                    if i > 0 {
                        push_text(&mut text, "\n\n");
                    } else {
                        assert(all.subrange(0, 1) =~= seq![all[0]]);
                    }
                    push_text(&mut text, errors[i].to_text().as_str());
                    i = i + 1;
                    proof {
                        assert(text@ =~= head + spec_lexer_errors_text(all.subrange(0, i as int)));
                    }
                }
                proof {
                    assert(errors_view(errors@).subrange(0, errors.len() as int) =~= errors_view(
                        errors@,
                    ));
                }
                text
            },
            CompileError::Parser(error) => concat("Parser failed\n", error.to_text().as_str()),
        }
    }
}

/// The source that is compiled: with `rnd`, the random-number library comes first, on
/// lines of its own.
pub open spec fn spec_source(library: Seq<char>, program: Seq<char>, rnd: bool) -> Seq<char> {
    if rnd {
        library + "\n"@ + program
    } else {
        program
    }
}

/// Compiling a source with fresh names from `n`: the term, or the lexical errors (all of
/// them), or the parse error; and the counter after it. `None` where lexing or parsing
/// cannot complete (a number too large for an `i32`, a look-ahead past the end of the
/// tokens).
pub open spec fn spec_compile(source: Seq<char>, optimise: bool, n: u64) -> Option<
    (Result<SpecTerm, SpecCompileError>, u64),
> {
    match spec_tokenise(source) {
        Some((tokens, errors)) => if errors.len() > 0 {
            Some((Err(SpecCompileError::Lexer(errors)), n))
        } else {
            match rule_program(tokens, SpecParser { index: 0, functions: Seq::empty(), next_var: n }) {
                Some((Ok(t), q)) => {
                    let (expanded, n1) = spec_expand_operations(t, q.next_var);
                    if optimise {
                        match spec_reduction_loop(expanded, n1, 0) {
                            Some((reduced, n2)) => Some((Ok(reduced), n2)),
                            None => None,
                        }
                    } else {
                        Some((Ok(expanded), n1))
                    }
                },
                Some((Err(e), q)) => Some((Err(SpecCompileError::Parser(e)), q.next_var)),
                None => None,
            }
        },
        None => None,
    }
}

/// The text of the standard random-number library.
pub open spec fn spec_standard_library() -> Seq<char> {
    "fn rnd_bool() {\n    return \\ rnd_b<b>.[b].# \\;\n}\n\nfn rnd_int(low, high) {\n    span := $high - $low;\n    if ($span <= 0) {\n        return $low;\n    }\n    bound := 1;\n    while ($bound <= $span) {\n        bound := $bound * 2;\n    }\n    draw := $bound;\n    while ($draw > $span) {\n        draw := 0;\n        step := 1;\n        while ($step < $bound) {\n            if (rnd_bool()) {\n                draw := $draw + $step;\n            }\n            step := $step * 2;\n        }\n    }\n    return $low + $draw;\n}\n"@
}

/// The standard random-number library, put before a program compiled with `rnd`.
pub fn standard_library() -> (r: String)
    ensures
        r@ == spec_standard_library(),
{
    owned("fn rnd_bool() {\n    return \\ rnd_b<b>.[b].# \\;\n}\n\nfn rnd_int(low, high) {\n    span := $high - $low;\n    if ($span <= 0) {\n        return $low;\n    }\n    bound := 1;\n    while ($bound <= $span) {\n        bound := $bound * 2;\n    }\n    draw := $bound;\n    while ($draw > $span) {\n        draw := 0;\n        step := 1;\n        while ($step < $bound) {\n            if (rnd_bool()) {\n                draw := $draw + $step;\n            }\n            step := $step * 2;\n        }\n    }\n    return $low + $draw;\n}\n")
}

/// What compiling gives: a lexical error exactly when lexing meets one, and then all of
/// them; a parse error exactly when lexing meets none and the program does not parse, and
/// then the parser's error; otherwise the program's term, with no operation left in it.
pub proof fn lemma_compile_outcome(source: Seq<char>, optimise: bool, n: u64)
    requires
        spec_compile(source, optimise, n) is Some,
    ensures
        spec_tokenise(source) is Some,
        ({
            let (c, _) = spec_compile(source, optimise, n).unwrap();
            let (tokens, errors) = spec_tokenise(source).unwrap();
            let parsed = rule_program(tokens, SpecParser { index: 0, functions: Seq::empty(), next_var: n });
            &&& (c is Err && c->Err_0 is Lexer) <==> errors.len() > 0
            &&& (c matches Err(SpecCompileError::Lexer(es)) ==> es == errors)
            &&& (c is Err && c->Err_0 is Parser) <==> (errors.len() == 0 && parsed is Some
                && parsed.unwrap().0 is Err)
            &&& (c matches Err(SpecCompileError::Parser(e)) ==> parsed.unwrap().0 == Err::<SpecTerm, SpecParserError>(e))
            &&& c is Ok ==> spec_no_ops(c->Ok_0)
        }),
{
    let (tokens, errors) = spec_tokenise(source).unwrap();
    let parsed = rule_program(tokens, SpecParser { index: 0, functions: Seq::empty(), next_var: n });
    if errors.len() == 0 {
        if let Some((Ok(t), q)) = parsed {
            lemma_expand_operations_no_ops(t, q.next_var);
            let (e, n1) = spec_expand_operations(t, q.next_var);
            if optimise && spec_reduction_loop(e, n1, 0) is Some {
                lemma_reduction_keeps_no_ops(e, n1, 0);
            }
        }
    }
}

/// The machine a term starts on.
pub open spec fn spec_start(t: SpecTerm, silent: bool, next_var: u64, next_location: u64) -> SpecMachine {
    SpecMachine {
        memory: Map::empty(),
        environment: Map::empty(),
        expression: t,
        continuations: Seq::empty(),
        steps: 0,
        silent,
        output: Seq::empty(),
        coins: Seq::empty(),
        next_var,
        next_location,
    }
}

/// The machine a term starts on with input lines and random choices supplied: the inputs
/// are read first to last, the choices are drawn first to last.
pub open spec fn spec_start_supplied(
    t: SpecTerm,
    silent: bool,
    next_var: u64,
    next_location: u64,
    inputs: Seq<SpecTerm>,
    coins: Seq<bool>,
) -> SpecMachine {
    let m = spec_start(t, silent, next_var, next_location);
    SpecMachine {
        memory: if inputs.len() > 0 {
            m.memory.insert(SpecLocation::Input, inputs.reverse())
        } else {
            m.memory
        },
        coins: coins.reverse(),
        ..m
    }
}

impl Interpreter {
    /// Whether the machine's output is echoed as it is written.
    pub closed spec fn is_silent(&self) -> bool {
        self.silent
    }

    /// The counter of fresh variable names.
    pub closed spec fn next_var(&self) -> u64 {
        self.names.next_var
    }

    /// The counter of fresh location names.
    pub closed spec fn next_location(&self) -> u64 {
        self.names.next_location
    }

    /// The text of the random-number library.
    pub closed spec fn library(&self) -> Seq<char> {
        self.rnd_library@
    }

    /// The lines written by the last run.
    pub closed spec fn last_output(&self) -> Seq<Seq<char>> {
        self.output.deep_view()
    }

    /// The number of steps the last run took.
    pub closed spec fn last_steps(&self) -> u32 {
        self.steps
    }

    /// The lines of the trace of the last run.
    pub closed spec fn last_trace(&self) -> Seq<Seq<char>> {
        self.trace.deep_view()
    }

    /// The machine programs are run on.
    pub closed spec fn kind(&self) -> MachineType {
        self.machine_type
    }

    /// An interpreter with the standard random-number library: `rnd_bool()`, one random
    /// choice, and `rnd_int(low, high)`, an integer from `low` to `high` inclusive drawn by
    /// rejection sampling over random choices (`low` where `high <= low`).
    pub fn new(silent: bool, machine_type: MachineType) -> (r: Interpreter)
        ensures
            r.is_silent() == silent,
            r.kind() == machine_type,
            r.next_var() == 1,
            r.next_location() == 1,
            r.library() == spec_standard_library(),
            r.last_output() == Seq::<Seq<char>>::empty(),
    {
        Interpreter::with_library(silent, machine_type, standard_library())
    }

    /// An interpreter whose random-number library (put before a program compiled with
    /// `rnd`) is the given text.
    pub fn with_library(silent: bool, machine_type: MachineType, library: String) -> (r: Interpreter)
        ensures
            r.is_silent() == silent,
            r.kind() == machine_type,
            r.next_var() == 1,
            r.next_location() == 1,
            r.library() == library@,
            r.last_output() == Seq::<Seq<char>>::empty(),
    {
        let r = Interpreter {
            silent,
            machine_type,
            names: NameSupply::new(),
            rnd_library: library,
            output: Vec::new(),
            trace: Vec::new(),
            steps: 0,
        };
        proof {
            assert(r.output.deep_view() =~= Seq::<Seq<char>>::empty());
        }
        r
    }

    /// Compiles a program: lexes it (failing with every lexical error), parses it, expands
    /// its operations and, with `optimise`, reduces it.
    pub fn compile(&mut self, program: String, optimise: bool, rnd: bool) -> (r: Result<
        Term,
        CompileError,
    >)
        requires
            spec_source(old(self).library(), program@, rnd).len() < usize::MAX,
            spec_compile(spec_source(old(self).library(), program@, rnd), optimise, old(self).next_var())
                is Some,
        ensures
            spec_compile(spec_source(old(self).library(), program@, rnd), optimise, old(self).next_var())
                == Some((compile_outcome(r), final(self).next_var())),
            final(self).next_location() == old(self).next_location(),
            final(self).is_silent() == old(self).is_silent(),
            final(self).library() == old(self).library(),
            final(self).last_output() == old(self).last_output(),
    {
        let source = if rnd {
            let mut text = concat(self.rnd_library.as_str(), "\n");
            push_text(&mut text, program.as_str());
            text
        } else {
            program
        };
        let lexer = Lexer::new(source);
        let result = lexer.tokenise();
        let tokens = result.tokens;
        let errors = result.errors;
        if errors.len() > 0 {
            return Err(CompileError::Lexer(errors));
        }
        let mut parser = Parser::with_names(tokens, self.names);
        let parsed = parser.parse();
        self.names = NameSupply {
            next_var: parser.names().next_var,
            next_location: self.names.next_location,
        };
        let term = match parsed {
            Ok(t) => t,
            Err(e) => return Err(CompileError::Parser(e)),
        };
        let mut term = term.expand_operations(&mut self.names);
        if optimise {
            term = term.compute_reduction(true, &mut self.names);
        }
        Ok(term)
    }

    /// Runs a term on a machine until it stops or fails, drawing a random choice whenever
    /// the term reads a random location; the lines it writes are kept as the last output.
    /// The choices are random: the result is that of the run with the choices drawn, some
    /// sequence of choices (see `spec_drive`).
    pub fn run(&mut self, term: Term, trace: bool) -> (r: StepResult)
        requires
            forall|bits: Seq<bool>|
                #[trigger] spec_drive(
                    spec_start(term@, old(self).is_silent(), old(self).next_var(), old(self).next_location()),
                    bits,
                ) is Some,
            trace ==> forall|bits: Seq<bool>|
                #[trigger] spec_drive_traceable(
                    spec_start(term@, old(self).is_silent(), old(self).next_var(), old(self).next_location()),
                    bits,
                ),
        ensures
            exists|bits: Seq<bool>|
                #![trigger spec_drive(spec_start(term@, old(self).is_silent(), old(self).next_var(), old(self).next_location()), bits)]
                {
                    let start = spec_start(
                        term@,
                        old(self).is_silent(),
                        old(self).next_var(),
                        old(self).next_location(),
                    );
                    let (m, result) = spec_drive(start, bits).unwrap();
                    &&& r == result
                    &&& final(self).last_output() == m.output
                    &&& final(self).next_var() == m.next_var
                    &&& final(self).next_location() == m.next_location
                    &&& final(self).last_steps() == m.steps
                    &&& trace ==> spec_table_of(spec_drive_trace(start, bits), final(self).last_trace())
                    &&& !trace ==> final(self).last_trace() == Seq::<Seq<char>>::empty()
                },
            final(self).is_silent() == old(self).is_silent(),
            final(self).library() == old(self).library(),
    {
        let ghost start = spec_start(term@, self.silent, self.names.next_var, self.names.next_location);
        let mut machine = KrivineMachine::with_names(term, self.names);
        machine.set_silent(self.silent);
        assert(machine@ == start);
        let result = machine.run_drawing(trace);
        let ghost bits = choose|bits: Seq<bool>|
            {
                &&& #[trigger] spec_drive(start, bits) == Some((machine@, result))
                &&& machine.recorded() == Seq::<SpecState>::empty() + if trace {
                    spec_drive_trace(start, bits)
                } else {
                    Seq::<SpecState>::empty()
                }
            };
        self.names = machine.names();
        self.steps = machine.steps_taken();
        self.trace = if trace {
            let lines = machine.trace_table().lines;
            proof {
                assert(machine.recorded() =~= spec_drive_trace(start, bits));
            }
            lines
        } else {
            let empty: Vec<String> = Vec::new();
            proof {
                assert(empty.deep_view() =~= Seq::<Seq<char>>::empty());
            }
            empty
        };
        self.output = machine.take_output();
        proof {
            assert(spec_drive(start, bits) == Some((machine@, result)));
        }
        result
    }

    /// Runs a term on a machine until it stops or fails, with the input lines it reads and
    /// the random choices it draws supplied in advance (a read or a draw past them fails);
    /// the lines it writes are kept as the last output.
    pub fn run_supplied(&mut self, term: Term, trace: bool, inputs: Vec<Term>, coins: Vec<bool>) -> (r:
        StepResult)
        requires
            spec_run(
                spec_start_supplied(
                    term@,
                    old(self).is_silent(),
                    old(self).next_var(),
                    old(self).next_location(),
                    terms_view(inputs@),
                    coins@,
                ),
            ) is Some,
            trace ==> spec_traceable(
                spec_start_supplied(
                    term@,
                    old(self).is_silent(),
                    old(self).next_var(),
                    old(self).next_location(),
                    terms_view(inputs@),
                    coins@,
                ),
            ),
        ensures
            ({
                let start = spec_start_supplied(
                    term@,
                    old(self).is_silent(),
                    old(self).next_var(),
                    old(self).next_location(),
                    terms_view(inputs@),
                    coins@,
                );
                let (m, result) = spec_run(start).unwrap();
                &&& r == result
                &&& final(self).last_output() == m.output
                &&& final(self).next_var() == m.next_var
                &&& final(self).next_location() == m.next_location
                &&& final(self).last_steps() == m.steps
                &&& trace ==> spec_table_of(spec_run_trace(start), final(self).last_trace())
                &&& !trace ==> final(self).last_trace() == Seq::<Seq<char>>::empty()
            }),
            final(self).is_silent() == old(self).is_silent(),
            final(self).library() == old(self).library(),
    {
        let ghost start = spec_start_supplied(
            term@,
            self.silent,
            self.names.next_var,
            self.names.next_location,
            terms_view(inputs@),
            coins@,
        );
        let mut machine = KrivineMachine::with_names(term, self.names);
        machine.set_silent(self.silent);
        if inputs.len() > 0 {
            machine.seed_input(inputs);
        }
        let mut i: usize = coins.len();
        proof {
            assert(coins@.subrange(i as int, coins.len() as int).reverse() =~= Seq::<bool>::empty());
        }
        while i > 0
            invariant
                i <= coins.len(),
                machine.wf(),
                machine.recorded() == Seq::<crate::machines::trace::SpecState>::empty(),
                machine@ == (SpecMachine {
                    coins: coins@.subrange(i as int, coins.len() as int).reverse(),
                    ..start
                }),
            decreases i,
        {
            proof {
                assert(coins@.subrange(i - 1, coins.len() as int).reverse() =~= coins@.subrange(
                    i as int,
                    coins.len() as int,
                ).reverse().push(coins@[i - 1]));
            }
            machine.supply_random(coins[i - 1]);
            i = i - 1;
        }
        proof {
            assert(coins@.subrange(0, coins.len() as int) =~= coins@);
            assert(machine@ == start);
        }
        let result = machine.run(trace);
        self.names = machine.names();
        self.steps = machine.steps_taken();
        self.trace = if trace {
            machine.trace_table().lines
        } else {
            let empty: Vec<String> = Vec::new();
            proof {
                assert(empty.deep_view() =~= Seq::<Seq<char>>::empty());
            }
            empty
        };
        self.output = machine.take_output();
        result
    }

    /// Compiles a program and runs it.
    pub fn interpret(&mut self, program: String, optimise: bool, trace: bool, rnd: bool) -> (r: Result<
        StepResult,
        CompileError,
    >)
        requires
            spec_source(old(self).library(), program@, rnd).len() < usize::MAX,
            spec_compile(spec_source(old(self).library(), program@, rnd), optimise, old(self).next_var())
                is Some,
            ({
                let (c, n) = spec_compile(
                    spec_source(old(self).library(), program@, rnd),
                    optimise,
                    old(self).next_var(),
                ).unwrap();
                &&& c is Ok ==> forall|bits: Seq<bool>|
                    #[trigger] spec_drive(
                        spec_start(c->Ok_0, old(self).is_silent(), n, old(self).next_location()),
                        bits,
                    ) is Some
                &&& (c is Ok && trace) ==> forall|bits: Seq<bool>|
                    #[trigger] spec_drive_traceable(
                        spec_start(c->Ok_0, old(self).is_silent(), n, old(self).next_location()),
                        bits,
                    )
            }),
        ensures
            ({
                let (c, n) = spec_compile(
                    spec_source(old(self).library(), program@, rnd),
                    optimise,
                    old(self).next_var(),
                ).unwrap();
                match c {
                    Ok(t) => r is Ok && exists|bits: Seq<bool>|
                        {
                            let (m, result) = #[trigger] spec_drive(
                                spec_start(t, old(self).is_silent(), n, old(self).next_location()),
                                bits,
                            ).unwrap();
                            &&& r->Ok_0 == result
                            &&& final(self).last_output() == m.output
                        },
                    Err(e) => r is Err && r->Err_0@ == e,
                }
            }),
    {
        let term = match self.compile(program, optimise, rnd) {
            Ok(t) => t,
            Err(e) => return Err(e),
        };
        Ok(self.run(term, trace))
    }

    /// Compiles a program and runs it with the input lines it reads and the random choices
    /// it draws supplied in advance.
    pub fn interpret_supplied(
        &mut self,
        program: String,
        optimise: bool,
        trace: bool,
        rnd: bool,
        inputs: Vec<Term>,
        coins: Vec<bool>,
    ) -> (r: Result<
        StepResult,
        CompileError,
    >)
        requires
            spec_source(old(self).library(), program@, rnd).len() < usize::MAX,
            spec_compile(spec_source(old(self).library(), program@, rnd), optimise, old(self).next_var())
                is Some,
            ({
                let (c, n) = spec_compile(
                    spec_source(old(self).library(), program@, rnd),
                    optimise,
                    old(self).next_var(),
                ).unwrap();
                &&& c is Ok ==> spec_run(
                    spec_start_supplied(c->Ok_0, old(self).is_silent(), n, old(self).next_location(), terms_view(inputs@), coins@),
                ) is Some
                &&& (c is Ok && trace) ==> spec_traceable(
                    spec_start_supplied(c->Ok_0, old(self).is_silent(), n, old(self).next_location(), terms_view(inputs@), coins@),
                )
            }),
        ensures
            ({
                let (c, n) = spec_compile(
                    spec_source(old(self).library(), program@, rnd),
                    optimise,
                    old(self).next_var(),
                ).unwrap();
                match c {
                    Ok(t) => {
                        let (m, result) = spec_run(
                            spec_start_supplied(t, old(self).is_silent(), n, old(self).next_location(), terms_view(inputs@), coins@),
                        ).unwrap();
                        &&& r is Ok
                        &&& r->Ok_0 == result
                        &&& final(self).last_output() == m.output
                    },
                    Err(e) => r is Err && r->Err_0@ == e,
                }
            }),
    {
        let term = match self.compile(program, optimise, rnd) {
            Ok(t) => t,
            Err(e) => return Err(e),
        };
        Ok(self.run_supplied(term, trace, inputs, coins))
    }

    /// The machine the interpreter was asked to run programs on (programs for the stack
    /// machine run on the Krivine machine).
    pub fn machine_type(&self) -> (r: MachineType)
        ensures
            r == self.kind(),
    {
        self.machine_type
    }

    /// The supply of fresh names as compiling and running have left it.
    pub fn names(&self) -> (r: NameSupply)
        ensures
            r.next_var == self.next_var(),
            r.next_location == self.next_location(),
    {
        self.names
    }

    /// The lines of the trace of the last run, if it was traced.
    pub fn trace_lines(&self) -> (r: &[String])
        ensures
            r@.len() == self.last_trace().len(),
            forall|i: int| 0 <= i < r@.len() ==> #[trigger] r@[i]@ == self.last_trace()[i],
    {
        self.trace.as_slice()
    }

    /// The number of steps the last run took.
    pub fn steps(&self) -> (r: u32)
        ensures
            r == self.last_steps(),
    {
        self.steps
    }

    /// The lines written by the last run.
    pub fn output(&self) -> (r: &[String])
        ensures
            r@.len() == self.last_output().len(),
            forall|i: int| 0 <= i < r@.len() ==> #[trigger] r@[i]@ == self.last_output()[i],
    {
        self.output.as_slice()
    }
}

} // verus!
