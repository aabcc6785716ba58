use vstd::prelude::*;

use crate::fmc_core::choice::{spec_skip, Constant, SpecChoice, SpecException};
use crate::fmc_core::location::SpecLocation;
use crate::fmc_core::render::{spec_renderable, spec_term_text};
use crate::fmc_core::special::Special;
use crate::fmc_core::term::{
    spec_all_locations, spec_bound_variables, spec_ends_with, spec_entry_suffix, spec_expand,
    spec_freshen_locations_over, spec_freshen_variables_over, spec_identity, spec_next,
    spec_var_name, SpecOperation, SpecTerm,
};
use crate::machines::machine::StepResult;
use crate::machines::stores::{spec_pop, spec_push, spec_stack};
use crate::text::{lemma_digits, spec_digits};

verus! {

/// The state of the Krivine machine: a stack for each location used, the variables bound,
/// the term being run, the continuations waiting for a choice, the steps taken, whether
/// output is echoed, the lines written, the random choices supplied and not yet used, and
/// the counters of fresh names.
pub struct SpecMachine {
    pub memory: Map<SpecLocation, Seq<SpecTerm>>,
    pub environment: Map<Seq<char>, SpecTerm>,
    pub expression: SpecTerm,
    pub continuations: Seq<(SpecChoice, SpecTerm)>,
    pub steps: u32,
    pub silent: bool,
    pub output: Seq<Seq<char>>,
    pub coins: Seq<bool>,
    pub next_var: u64,
    pub next_location: u64,
}

/// What the next step needs from outside the machine.
#[derive(Clone, Copy, PartialEq, Eq, Structural, Debug)]
pub enum Need {
    Nothing,
    RandomChoice,
    Input,
}

/// The next step reads a random location with no choice supplied, or the input location
/// with an empty stack.
pub open spec fn spec_need(m: SpecMachine) -> Need {
    match m.expression {
        SpecTerm::Abstraction { location, .. } => match location {
            SpecLocation::Rnd | SpecLocation::RndBool => if m.coins.len() == 0 {
                Need::RandomChoice
            } else {
                Need::Nothing
            },
            SpecLocation::Input => if spec_stack(m.memory, SpecLocation::Input).len() == 0 {
                Need::Input
            } else {
                Need::Nothing
            },
            _ => Need::Nothing,
        },
        _ => Need::Nothing,
    }
}

/// One look-up of a variable in the environment; any other term stays as it is.
pub open spec fn spec_chase_once(env: Map<Seq<char>, SpecTerm>, t: SpecTerm) -> SpecTerm {
    match t {
        SpecTerm::Variable { name } => if env.contains_key(name) {
            env[name]
        } else {
            t
        },
        _ => t,
    }
}

/// Whether a term is no variable that the environment binds.
pub open spec fn spec_settled(env: Map<Seq<char>, SpecTerm>, t: SpecTerm) -> bool {
    match t {
        SpecTerm::Variable { name } => !env.contains_key(name),
        _ => true,
    }
}

/// `k` look-ups in a row.
pub open spec fn spec_chase(env: Map<Seq<char>, SpecTerm>, t: SpecTerm, k: nat) -> SpecTerm
    decreases k,
{
    if k == 0 {
        t
    } else {
        spec_chase_once(env, spec_chase(env, t, (k - 1) as nat))
    }
}

/// A term with bound variables looked up until it is no bound variable; `None` where the
/// look-ups go round a cycle for ever.
pub open spec fn spec_resolve(env: Map<Seq<char>, SpecTerm>, t: SpecTerm) -> Option<SpecTerm> {
    if exists|k: nat| spec_settled(env, #[trigger] spec_chase(env, t, k)) {
        Some(spec_chase(env, t, choose|k: nat| spec_settled(env, #[trigger] spec_chase(env, t, k))))
    } else {
        None
    }
}

/// Once settled, a chase stays where it is.
pub proof fn lemma_chase_settled(env: Map<Seq<char>, SpecTerm>, t: SpecTerm, i: nat, k: nat)
    requires
        i <= k,
        spec_settled(env, spec_chase(env, t, i)),
    ensures
        spec_chase(env, t, k) == spec_chase(env, t, i),
    decreases k,
{
    if k > i {
        lemma_chase_settled(env, t, i, (k - 1) as nat);
    }
}

/// A resolved term is the chase at any point where it has settled.
pub proof fn lemma_resolve_at(env: Map<Seq<char>, SpecTerm>, t: SpecTerm, i: nat)
    requires
        spec_settled(env, spec_chase(env, t, i)),
    ensures
        spec_resolve(env, t) == Some(spec_chase(env, t, i)),
{
    let k = choose|k: nat| spec_settled(env, #[trigger] spec_chase(env, t, k));
    assert(spec_settled(env, spec_chase(env, t, k)));
    if k <= i {
        lemma_chase_settled(env, t, k, i);
    } else {
        lemma_chase_settled(env, t, i, k);
    }
}

/// The boolean a term holds, if it is a boolean choice.
pub open spec fn spec_boolean_of(t: SpecTerm) -> Option<bool> {
    match t {
        SpecTerm::Choice(SpecChoice::Constant(Constant::Boolean(b))) => Some(b),
        _ => None,
    }
}

/// The integer a term holds, if it is an integer choice.
pub open spec fn spec_integer_of(t: SpecTerm) -> Option<i32> {
    match t {
        SpecTerm::Choice(SpecChoice::Constant(Constant::Integer(n))) => Some(n),
        _ => None,
    }
}

/// The term of a constant.
pub open spec fn spec_constant_term(c: Constant) -> SpecTerm {
    SpecTerm::Choice(SpecChoice::Constant(c))
}

/// The result of an arithmetic primitive on integers, as Rust's checked integer operations
/// give it (division and remainder truncate towards zero); `None` where it overflows or
/// divides by zero.
pub open spec fn spec_arithmetic(s: Special, a: i32, b: i32) -> Option<i32> {
    match s {
        Special::Addition => a.checked_add(b),
        Special::Subraction => a.checked_sub(b),
        Special::Multiplication => a.checked_mul(b),
        Special::Division => a.checked_div(b),
        _ => a.checked_rem(b),
    }
}

/// The result of a comparison primitive on integers.
pub open spec fn spec_comparison(s: Special, a: i32, b: i32) -> bool {
    match s {
        Special::LessThan => a < b,
        Special::GreaterThan => a > b,
        Special::LessThanEqual => a <= b,
        _ => a >= b,
    }
}

/// The machine with its stacks replaced.
pub open spec fn spec_with_memory(m: SpecMachine, memory: Map<SpecLocation, Seq<SpecTerm>>) -> SpecMachine {
    SpecMachine { memory, ..m }
}

/// The machine after popping the main stack, and the popped term resolved; `None` where
/// resolving it goes round a cycle.
pub open spec fn spec_pop_resolved(m: SpecMachine) -> Option<(SpecMachine, Option<SpecTerm>)> {
    let (memory, popped) = spec_pop(m.memory, SpecLocation::Main);
    let m1 = spec_with_memory(m, memory);
    match popped {
        Some(t) => match spec_resolve(m.environment, t) {
            Some(v) => Some((m1, Some(v))),
            None => None,
        },
        None => Some((m1, None)),
    }
}

/// The machine after popping the two operands of a binary primitive: the second operand
/// is on top of the stack.
pub open spec fn spec_pop_two(m: SpecMachine) -> Option<
    (SpecMachine, Option<SpecTerm>, Option<SpecTerm>),
> {
    match spec_pop_resolved(m) {
        Some((m1, second)) => match spec_pop_resolved(m1) {
            Some((m2, first)) => Some((m2, first, second)),
            None => None,
        },
        None => None,
    }
}

/// The machine with a result pushed on the main stack and the skip choice to run next.
pub open spec fn spec_give(m: SpecMachine, t: SpecTerm) -> (SpecMachine, StepResult) {
    (
        SpecMachine {
            memory: spec_push(m.memory, SpecLocation::Main, t),
            expression: SpecTerm::Choice(spec_skip()),
            ..m
        },
        StepResult::Continue,
    )
}

/// A step that runs a primitive on the main stack.
pub open spec fn spec_special_step(m: SpecMachine, s: Special) -> Option<(SpecMachine, StepResult)> {
    match s {
        Special::LogicNot | Special::IntCast => match spec_pop_resolved(m) {
            Some((m1, operand)) => match operand {
                Some(v) => if s == Special::LogicNot {
                    match spec_boolean_of(v) {
                        Some(b) => Some(spec_give(m1, spec_constant_term(Constant::Boolean(!b)))),
                        None => Some((m1, StepResult::Failure)),
                    }
                } else {
                    match spec_integer_of(v) {
                        Some(n) => Some(spec_give(m1, spec_constant_term(Constant::Integer(n)))),
                        None => Some((m1, StepResult::Failure)),
                    }
                },
                None => Some((m1, StepResult::Failure)),
            },
            None => None,
        },
        _ => match spec_pop_two(m) {
            Some((m2, first, second)) => match (first, second) {
                (Some(f), Some(g)) => match s {
                    Special::LogicOr | Special::LogicAnd => match (
                        spec_boolean_of(f),
                        spec_boolean_of(g),
                    ) {
                        (Some(a), Some(b)) => Some(
                            spec_give(
                                m2,
                                spec_constant_term(
                                    Constant::Boolean(
                                        if s == Special::LogicOr {
                                            a || b
                                        } else {
                                            a && b
                                        },
                                    ),
                                ),
                            ),
                        ),
                        _ => Some((m2, StepResult::Failure)),
                    },
                    Special::Equal => Some(
                        spec_give(m2, spec_constant_term(Constant::Boolean(f == g))),
                    ),
                    Special::NotEqual => Some(
                        spec_give(m2, spec_constant_term(Constant::Boolean(f != g))),
                    ),
                    Special::LessThan | Special::GreaterThan | Special::LessThanEqual
                    | Special::GreaterThanEqual => match (spec_integer_of(f), spec_integer_of(g)) {
                        (Some(a), Some(b)) => Some(
                            spec_give(
                                m2,
                                spec_constant_term(Constant::Boolean(spec_comparison(s, a, b))),
                            ),
                        ),
                        _ => Some((m2, StepResult::Failure)),
                    },
                    _ => match (spec_integer_of(f), spec_integer_of(g)) {
                        (Some(a), Some(b)) => match spec_arithmetic(s, a, b) {
                            Some(v) => Some(spec_give(m2, spec_constant_term(Constant::Integer(v)))),
                            None => Some((m2, StepResult::Failure)),
                        },
                        _ => Some((m2, StepResult::Failure)),
                    },
                },
                _ => Some((m2, StepResult::Failure)),
            },
            None => None,
        },
    }
}

/// The machine after taking a term from a location, and the term taken, if any: a random
/// choice from those supplied, a cell or local that was never written reads as `0`, any
/// other location pops its stack.
pub open spec fn spec_get_from(m: SpecMachine, l: SpecLocation) -> (SpecMachine, Option<SpecTerm>) {
    match l {
        SpecLocation::Rnd | SpecLocation::RndBool => if m.coins.len() > 0 {
            (
                SpecMachine { coins: m.coins.drop_last(), ..m },
                Some(spec_constant_term(Constant::Boolean(m.coins.last()))),
            )
        } else {
            (m, None)
        },
        SpecLocation::RndFloat => (m, None),
        SpecLocation::Cell(_) | SpecLocation::Local(_) => if m.memory.contains_key(l) {
            let (memory, popped) = spec_pop(m.memory, l);
            (spec_with_memory(m, memory), popped)
        } else {
            (
                spec_with_memory(m, m.memory.insert(l, Seq::empty())),
                Some(spec_constant_term(Constant::Integer(0))),
            )
        },
        _ => {
            let (memory, popped) = spec_pop(m.memory, l);
            (spec_with_memory(m, memory), popped)
        },
    }
}

/// The body of an abstraction about to run: a function entry (its binder ends in `_entry`)
/// gets fresh locals and fresh bound variables, so that each call has its own.
pub open spec fn spec_entered(binds: Seq<char>, body: SpecTerm, m: SpecMachine) -> (SpecTerm, u64, u64) {
    if spec_ends_with(binds, spec_entry_suffix()) {
        let (t1, l1) = spec_freshen_locations_over(body, spec_all_locations(body), m.next_location);
        let (t2, n2) = spec_freshen_variables_over(t1, spec_bound_variables(t1), m.next_var);
        (t2, n2, l1)
    } else {
        (body, m.next_var, m.next_location)
    }
}

/// One transition of the machine: the next state and whether it continues, stops or fails;
/// `None` where a step cannot complete: the step counter would overflow, a look-up goes
/// round a cycle, or output cannot be rendered.
pub open spec fn spec_step(m: SpecMachine) -> Option<(SpecMachine, StepResult)> {
    if m.steps == u32::MAX {
        None
    } else {
        let m0 = SpecMachine {
            steps: (m.steps + 1) as u32,
            expression: spec_identity(spec_var_name(m.next_var)),
            next_var: spec_next(m.next_var),
            ..m
        };
        match m.expression {
            SpecTerm::Application { function, argument, location } => if location
                == SpecLocation::Output {
                match spec_resolve(m0.environment, *argument) {
                    Some(v) => if spec_renderable(v) {
                        Some(
                            (
                                SpecMachine {
                                    output: m0.output.push(spec_term_text(v, 0)),
                                    expression: *function,
                                    ..m0
                                },
                                StepResult::Continue,
                            ),
                        )
                    } else {
                        None
                    },
                    None => None,
                }
            } else {
                Some(
                    (
                        SpecMachine {
                            memory: spec_push(m0.memory, location, *argument),
                            expression: *function,
                            ..m0
                        },
                        StepResult::Continue,
                    ),
                )
            },
            SpecTerm::Abstraction { binds, term, location } => {
                let (m1, taken) = spec_get_from(m0, location);
                match taken {
                    Some(argument) => match spec_resolve(m1.environment, argument) {
                        Some(closed) => {
                            let (body, n, l) = spec_entered(binds, *term, m1);
                            Some(
                                (
                                    SpecMachine {
                                        environment: m1.environment.insert(binds, closed),
                                        expression: body,
                                        next_var: n,
                                        next_location: l,
                                        ..m1
                                    },
                                    StepResult::Continue,
                                ),
                            )
                        },
                        None => None,
                    },
                    None => Some((m1, StepResult::Failure)),
                }
            },
            SpecTerm::Variable { name } => if m0.environment.contains_key(name) {
                Some(
                    (
                        SpecMachine { expression: m0.environment[name], ..m0 },
                        StepResult::Continue,
                    ),
                )
            } else {
                Some((m0, StepResult::Failure))
            },
            SpecTerm::Operation(o) => {
                let (expanded, n) = spec_expand(o, m0.next_var);
                Some((SpecMachine { expression: expanded, next_var: n, ..m0 }, StepResult::Continue))
            },
            SpecTerm::Choice(c) => if m0.continuations.len() == 0 {
                Some((m0, StepResult::Stop))
            } else {
                let (branch, continuation) = m0.continuations.last();
                Some(
                    (
                        SpecMachine {
                            continuations: m0.continuations.drop_last(),
                            expression: if branch == c {
                                continuation
                            } else {
                                SpecTerm::Choice(c)
                            },
                            ..m0
                        },
                        StepResult::Continue,
                    ),
                )
            },
            SpecTerm::Case { term, exit, then } => Some(
                (
                    SpecMachine {
                        expression: *term,
                        continuations: m0.continuations.push((exit, *then)),
                        ..m0
                    },
                    StepResult::Continue,
                ),
            ),
            SpecTerm::Loop { term, branch } => Some(
                (
                    SpecMachine {
                        expression: *term,
                        continuations: m0.continuations.push(
                            (branch, SpecTerm::Loop { term, branch }),
                        ),
                        ..m0
                    },
                    StepResult::Continue,
                ),
            ),
            SpecTerm::Special(s) => spec_special_step(m0, s),
        }
    }
}

/// Steps until the machine stops or fails: the final state and result; `None` where a step
/// is undefined or the machine would run for ever.
pub open spec fn spec_run(m: SpecMachine) -> Option<(SpecMachine, StepResult)>
    decreases u32::MAX - m.steps,
{
    match spec_step(m) {
        Some((m1, r)) => if r != StepResult::Continue {
            Some((m1, r))
        } else if m1.steps > m.steps {
            spec_run(m1)
        } else {
            None
        },
        None => None,
    }
}

/// The machine about to step when random choices are drawn as they are needed: where the
/// next step reads a random location with no choice supplied, the first of `bits` is
/// supplied; with the bits left over.
pub open spec fn spec_draw(m: SpecMachine, bits: Seq<bool>) -> (SpecMachine, Seq<bool>) {
    if spec_need(m) == Need::RandomChoice && bits.len() > 0 {
        (SpecMachine { coins: m.coins.push(bits[0]), ..m }, bits.drop_first())
    } else {
        (m, bits)
    }
}

/// Running the machine with random choices drawn from `bits` as they are needed, until it
/// stops or fails; a run that reaches the last value of the step counter stops there with
/// `Failure`.
pub open spec fn spec_drive(m: SpecMachine, bits: Seq<bool>) -> Option<(SpecMachine, StepResult)>
    decreases u32::MAX - m.steps,
{
    if m.steps == u32::MAX {
        Some((m, StepResult::Failure))
    } else {
        let (m0, rest) = spec_draw(m, bits);
        match spec_step(m0) {
            Some((m1, r)) => if r != StepResult::Continue {
                Some((m1, r))
            } else if m1.steps > m.steps {
                spec_drive(m1, rest)
            } else {
                None
            },
            None => None,
        }
    }
}

/// A resolved term is never a variable that the environment binds.
pub proof fn lemma_resolve_settled(env: Map<Seq<char>, SpecTerm>, t: SpecTerm)
    requires
        spec_resolve(env, t) is Some,
    ensures
        spec_settled(env, spec_resolve(env, t).unwrap()),
{
}

/// Taking a term from a location leaves the output, the environment, the term being run
/// and the step count as they were.
proof fn lemma_get_from_keeps(m: SpecMachine, l: SpecLocation)
    ensures
        ({
            let m1 = spec_get_from(m, l).0;
            &&& m1.output == m.output
            &&& m1.environment == m.environment
            &&& m1.expression == m.expression
            &&& m1.steps == m.steps
            &&& m1.continuations == m.continuations
            &&& m1.next_var == m.next_var
            &&& m1.next_location == m.next_location
        }),
{
}

/// A primitive step leaves the output and the step count as they were.
proof fn lemma_special_keeps(m: SpecMachine, s: Special)
    requires
        spec_special_step(m, s) is Some,
    ensures
        ({
            let (m1, r) = spec_special_step(m, s).unwrap();
            &&& m1.output == m.output
            &&& m1.steps == m.steps
            &&& m1.continuations == m.continuations
            &&& r != StepResult::Stop
        }),
{
}

/// Each step counts one step; it writes at most one line, after those already written;
/// and it stops exactly when a choice is reached with no continuation waiting for it.
pub proof fn lemma_step_laws(m: SpecMachine)
    requires
        spec_step(m) is Some,
    ensures
        ({
            let (m1, r) = spec_step(m).unwrap();
            &&& m1.steps == m.steps + 1
            &&& m.output.len() <= m1.output.len() <= m.output.len() + 1
            &&& m1.output.subrange(0, m.output.len() as int) == m.output
            &&& (r == StepResult::Stop <==> (m.expression is Choice && m.continuations.len() == 0))
        }),
{
    let m0 = SpecMachine {
        steps: (m.steps + 1) as u32,
        expression: spec_identity(spec_var_name(m.next_var)),
        next_var: spec_next(m.next_var),
        ..m
    };
    let (m1, r) = spec_step(m).unwrap();
    match m.expression {
        SpecTerm::Abstraction { location, .. } => {
            lemma_get_from_keeps(m0, location);
        },
        SpecTerm::Special(s) => {
            lemma_special_keeps(m0, s);
        },
        _ => {},
    }
    assert(m1.output.subrange(0, m.output.len() as int) =~= m.output);
}

/// Running ends only when the machine stops or fails.
pub proof fn lemma_run_ends(m: SpecMachine)
    requires
        spec_run(m) is Some,
    ensures
        spec_run(m).unwrap().1 != StepResult::Continue,
    decreases u32::MAX - m.steps,
{
    let (m1, r) = spec_step(m).unwrap();
    if r == StepResult::Continue {
        lemma_run_ends(m1);
    }
}

/// Seeded inputs are read first to last: after seeding, reading the input location gives
/// the first input and leaves the others, second first.
pub proof fn lemma_seeded_input_read_in_order(m: SpecMachine, inputs: Seq<SpecTerm>)
    requires
        inputs.len() > 0,
    ensures
        ({
            let seeded = spec_with_memory(m, m.memory.insert(SpecLocation::Input, inputs.reverse()));
            let (m1, taken) = spec_get_from(seeded, SpecLocation::Input);
            &&& taken == Some(inputs[0])
            &&& m1.memory[SpecLocation::Input] == inputs.drop_first().reverse()
        }),
{
    assert(inputs.reverse().last() == inputs[0]);
    assert(inputs.reverse().drop_last() =~= inputs.drop_first().reverse());
}

/// The logic primitives on two booleans `a` (below) and `b` (on top) of the main stack pop
/// both and push `a || b` for `LogicOr` and `a && b` for `LogicAnd`, leaving the rest of
/// the machine as it was and going on with skip.
pub proof fn lemma_logic_primitives(m: SpecMachine, a: bool, b: bool)
    requires
        spec_stack(m.memory, SpecLocation::Main).len() >= 2,
        spec_stack(m.memory, SpecLocation::Main).last() == SpecTerm::Choice(
            SpecChoice::Constant(Constant::Boolean(b)),
        ),
        spec_stack(m.memory, SpecLocation::Main)[spec_stack(m.memory, SpecLocation::Main).len()
            - 2] == SpecTerm::Choice(SpecChoice::Constant(Constant::Boolean(a))),
    ensures
        ({
            let main = spec_stack(m.memory, SpecLocation::Main);
            let rest = main.subrange(0, main.len() - 2);
            &&& spec_special_step(m, Special::LogicOr) == Some(
                (
                    SpecMachine {
                        memory: m.memory.insert(
                            SpecLocation::Main,
                            rest.push(SpecTerm::Choice(SpecChoice::Constant(Constant::Boolean(a || b)))),
                        ),
                        expression: SpecTerm::Choice(SpecChoice::Exception(SpecException::Skip)),
                        ..m
                    },
                    StepResult::Continue,
                ),
            )
            &&& spec_special_step(m, Special::LogicAnd) == Some(
                (
                    SpecMachine {
                        memory: m.memory.insert(
                            SpecLocation::Main,
                            rest.push(SpecTerm::Choice(SpecChoice::Constant(Constant::Boolean(a && b)))),
                        ),
                        expression: SpecTerm::Choice(SpecChoice::Exception(SpecException::Skip)),
                        ..m
                    },
                    StepResult::Continue,
                ),
            )
        }),
{
    let main = spec_stack(m.memory, SpecLocation::Main);
    let top = main.last();
    let below = main[main.len() - 2];
    lemma_resolve_at(m.environment, top, 0);
    lemma_resolve_at(m.environment, below, 0);
    let (m2, first, second) = spec_pop_two(m).unwrap();
    assert(main.drop_last().last() == below);
    assert(main.drop_last().drop_last() =~= main.subrange(0, main.len() - 2));
    assert(spec_stack(m2.memory, SpecLocation::Main) == main.subrange(0, main.len() - 2));
    assert(first == Some(below));
    assert(second == Some(top));
    let rest = main.subrange(0, main.len() - 2);
    assert(spec_push(m2.memory, SpecLocation::Main, SpecTerm::Choice(SpecChoice::Constant(Constant::Boolean(a || b))))
        =~= m.memory.insert(SpecLocation::Main, rest.push(SpecTerm::Choice(SpecChoice::Constant(Constant::Boolean(a || b))))));
    assert(spec_push(m2.memory, SpecLocation::Main, SpecTerm::Choice(SpecChoice::Constant(Constant::Boolean(a && b))))
        =~= m.memory.insert(SpecLocation::Main, rest.push(SpecTerm::Choice(SpecChoice::Constant(Constant::Boolean(a && b))))));
}

/// The machine after `k` steps, each of which continues.
pub open spec fn spec_stepped(m: SpecMachine, k: nat) -> SpecMachine
    decreases k,
{
    if k == 0 {
        m
    } else {
        spec_stepped(spec_step(m).unwrap().0, (k - 1) as nat)
    }
}

/// A do-while loop repeats its body exactly while its condition yields true. Running the
/// expansion of `do body while condition` reaches, in three steps, the pass
/// `body ; condition ; <x>.x` with three continuations waiting above those it had, the
/// innermost on the choice `true`. When a pass ends in a boolean choice with those
/// continuations waiting, two steps later `true` starts the pass again with the same
/// continuations, and `false` leaves the loop: skip runs with only the outermost waiting.
pub proof fn lemma_do_while_repeats(
    m: SpecMachine,
    body: SpecTerm,
    condition: SpecTerm,
    n: u64,
    after: SpecMachine,
    b: bool,
)
    requires
        m.expression == spec_expand(
            SpecOperation::DoWhile { term: Box::new(body), condition: Box::new(condition) },
            n,
        ).0,
        m.steps as int + 3 <= u32::MAX,
        after.continuations == spec_stepped(m, 3).continuations,
        after.expression == SpecTerm::Choice(SpecChoice::Constant(Constant::Boolean(b))),
        after.steps as int + 2 <= u32::MAX,
    ensures
        ({
            let pass = SpecTerm::Case {
                term: Box::new(
                    SpecTerm::Case {
                        term: Box::new(body),
                        exit: SpecChoice::Exception(SpecException::Skip),
                        then: Box::new(condition),
                    },
                ),
                exit: SpecChoice::Exception(SpecException::Skip),
                then: Box::new(spec_identity(spec_var_name(n))),
            };
            let entered = spec_stepped(m, 3);
            let k = m.continuations.len();
            &&& entered.expression == pass
            &&& entered.continuations.len() == k + 3
            &&& entered.continuations.subrange(0, k as int) == m.continuations
            &&& entered.continuations.last().0 == SpecChoice::Constant(Constant::Boolean(true))
            &&& b ==> spec_stepped(after, 2).expression == pass
            &&& b ==> spec_stepped(after, 2).continuations == entered.continuations
            &&& !b ==> spec_stepped(after, 2).expression == SpecTerm::Choice(
                SpecChoice::Exception(SpecException::Skip),
            )
            &&& !b ==> spec_stepped(after, 2).continuations == entered.continuations.subrange(
                0,
                k + 1 as int,
            )
        }),
{
    reveal_with_fuel(spec_stepped, 4);
    let entered = spec_stepped(m, 3);
    let k = m.continuations.len();
    assert(entered.continuations.subrange(0, k as int) =~= m.continuations);
    let a1 = spec_step(after).unwrap().0;
    assert(a1.continuations =~= entered.continuations.drop_last());
    if b {
        assert(spec_stepped(after, 2).continuations =~= entered.continuations);
    } else {
        assert(a1.continuations.drop_last() =~= entered.continuations.subrange(0, k + 1 as int));
    }
}

/// The machine after the two operands on top of the main stack are replaced by `result`,
/// or only popped where there is none, with skip to run next.
pub open spec fn spec_operands_replaced(m: SpecMachine, result: Option<Constant>) -> SpecMachine {
    let main = spec_stack(m.memory, SpecLocation::Main);
    let rest = main.subrange(0, main.len() - 2);
    match result {
        Some(c) => SpecMachine {
            memory: m.memory.insert(
                SpecLocation::Main,
                rest.push(SpecTerm::Choice(SpecChoice::Constant(c))),
            ),
            expression: SpecTerm::Choice(SpecChoice::Exception(SpecException::Skip)),
            ..m
        },
        None => SpecMachine { memory: m.memory.insert(SpecLocation::Main, rest), ..m },
    }
}

/// The integer primitives on two integers `a` (below) and `b` (on top) of the main stack
/// pop both and push the sum, difference or product where it fits in `i32` and fail where it
/// does not; divide and take the remainder of a natural number by a positive one, and fail
/// on a zero divisor; compare `a` with `b`; and test them for equality. A logic primitive
/// fails on them.
pub proof fn lemma_integer_primitives(m: SpecMachine, a: i32, b: i32)
    requires
        spec_stack(m.memory, SpecLocation::Main).len() >= 2,
        spec_stack(m.memory, SpecLocation::Main).last() == SpecTerm::Choice(
            SpecChoice::Constant(Constant::Integer(b)),
        ),
        spec_stack(m.memory, SpecLocation::Main)[spec_stack(m.memory, SpecLocation::Main).len()
            - 2] == SpecTerm::Choice(SpecChoice::Constant(Constant::Integer(a))),
    ensures
        ({
            let gives = |c: Constant| Some((spec_operands_replaced(m, Some(c)), StepResult::Continue));
            let fails = Some((spec_operands_replaced(m, None), StepResult::Failure));
            &&& i32::MIN <= a + b <= i32::MAX ==> spec_special_step(m, Special::Addition) == gives(
                Constant::Integer((a + b) as i32),
            )
            &&& !(i32::MIN <= a + b <= i32::MAX) ==> spec_special_step(m, Special::Addition) == fails
            &&& i32::MIN <= a - b <= i32::MAX ==> spec_special_step(m, Special::Subraction) == gives(
                Constant::Integer((a - b) as i32),
            )
            &&& !(i32::MIN <= a - b <= i32::MAX) ==> spec_special_step(m, Special::Subraction) == fails
            &&& i32::MIN <= a * b <= i32::MAX ==> spec_special_step(m, Special::Multiplication)
                == gives(Constant::Integer((a * b) as i32))
            &&& !(i32::MIN <= a * b <= i32::MAX) ==> spec_special_step(m, Special::Multiplication)
                == fails
            &&& a >= 0 && b > 0 ==> spec_special_step(m, Special::Division) == gives(
                Constant::Integer((a as int / b as int) as i32),
            )
            &&& a >= 0 && b > 0 ==> spec_special_step(m, Special::Modulo) == gives(
                Constant::Integer((a as int % b as int) as i32),
            )
            &&& b == 0 ==> spec_special_step(m, Special::Division) == fails
            &&& b == 0 ==> spec_special_step(m, Special::Modulo) == fails
            &&& spec_special_step(m, Special::LessThan) == gives(Constant::Boolean(a < b))
            &&& spec_special_step(m, Special::GreaterThan) == gives(Constant::Boolean(a > b))
            &&& spec_special_step(m, Special::LessThanEqual) == gives(Constant::Boolean(a <= b))
            &&& spec_special_step(m, Special::GreaterThanEqual) == gives(Constant::Boolean(a >= b))
            &&& spec_special_step(m, Special::Equal) == gives(Constant::Boolean(a == b))
            &&& spec_special_step(m, Special::NotEqual) == gives(Constant::Boolean(a != b))
            &&& spec_special_step(m, Special::LogicOr) == fails
            &&& spec_special_step(m, Special::LogicAnd) == fails
        }),
{
    let main = spec_stack(m.memory, SpecLocation::Main);
    let top = main.last();
    let below = main[main.len() - 2];
    lemma_resolve_at(m.environment, top, 0);
    lemma_resolve_at(m.environment, below, 0);
    let (m2, first, second) = spec_pop_two(m).unwrap();
    assert(main.drop_last().last() == below);
    let rest = main.subrange(0, main.len() - 2);
    assert(main.drop_last().drop_last() =~= rest);
    assert(m2.memory =~= m.memory.insert(SpecLocation::Main, rest));
    assert(m2 == spec_operands_replaced(m, None));
    assert forall|c: Constant| #[trigger] spec_give(m2, spec_constant_term(c)) == (
        spec_operands_replaced(m, Some(c)),
        StepResult::Continue,
    ) by {
        assert(spec_push(m2.memory, SpecLocation::Main, spec_constant_term(c)) =~= m.memory.insert(
            SpecLocation::Main,
            rest.push(spec_constant_term(c)),
        ));
    }
    assert(spec_constant_term(Constant::Integer(a)) == spec_constant_term(Constant::Integer(b))
        <==> a == b);
    if a >= 0 && b > 0 {
        assert(0 <= a as int / b as int <= a) by (nonlinear_arith)
            requires a >= 0, b > 0;
        assert(0 <= (a as int) % (b as int) < b) by (nonlinear_arith)
            requires a >= 0, b > 0;
        assert(spec_arithmetic(Special::Division, a, b) == Some((a as int / b as int) as i32));
        if a == 0 {
            assert((a as int) % (b as int) == 0) by (nonlinear_arith)
                requires a == 0, b > 0;
        }
        assert(spec_arithmetic(Special::Modulo, a, b) == Some((a as int % b as int) as i32));
    }
}

/// Negation on a boolean `b` on top of the main stack replaces it by `!b`; the integer
/// cast leaves an integer as it is and fails on a boolean, and negation fails on an integer.
pub proof fn lemma_unary_primitives(m: SpecMachine, c: Constant)
    requires
        spec_stack(m.memory, SpecLocation::Main).len() >= 1,
        spec_stack(m.memory, SpecLocation::Main).last() == SpecTerm::Choice(SpecChoice::Constant(c)),
    ensures
        ({
            let main = spec_stack(m.memory, SpecLocation::Main);
            let rest = main.drop_last();
            let gives = |r: Constant|
                Some(
                    (
                        SpecMachine {
                            memory: m.memory.insert(
                                SpecLocation::Main,
                                rest.push(SpecTerm::Choice(SpecChoice::Constant(r))),
                            ),
                            expression: SpecTerm::Choice(SpecChoice::Exception(SpecException::Skip)),
                            ..m
                        },
                        StepResult::Continue,
                    ),
                );
            let fails = Some(
                (
                    SpecMachine { memory: m.memory.insert(SpecLocation::Main, rest), ..m },
                    StepResult::Failure,
                ),
            );
            match c {
                Constant::Boolean(b) => {
                    &&& spec_special_step(m, Special::LogicNot) == gives(Constant::Boolean(!b))
                    &&& spec_special_step(m, Special::IntCast) == fails
                },
                Constant::Integer(n) => {
                    &&& spec_special_step(m, Special::IntCast) == gives(Constant::Integer(n))
                    &&& spec_special_step(m, Special::LogicNot) == fails
                },
            }
        }),
{
    let main = spec_stack(m.memory, SpecLocation::Main);
    lemma_resolve_at(m.environment, main.last(), 0);
    assert forall|r: Constant| #[trigger] spec_push(m.memory.insert(SpecLocation::Main, main.drop_last()), SpecLocation::Main, spec_constant_term(r))
        =~= m.memory.insert(SpecLocation::Main, main.drop_last().push(spec_constant_term(r))) by {}
}

/// The case on a choice: `term` runs, and `then` follows where it ends in `exit`.
pub open spec fn spec_case(term: SpecTerm, exit: SpecChoice, then: SpecTerm) -> SpecTerm {
    SpecTerm::Case { term: Box::new(term), exit, then: Box::new(then) }
}

/// The boolean choice `b`.
pub open spec fn spec_boolean_choice(b: bool) -> SpecChoice {
    SpecChoice::Constant(Constant::Boolean(b))
}

/// An if-then-else runs its `then` branch where the condition yields true and its `else`
/// branch where it yields false. Running its expansion reaches, in two steps, the condition
/// followed by `<x>.x` with two continuations waiting above those it had; when that ends
/// in a boolean choice with them waiting, `true` runs `then` with one left waiting (the
/// choice `false`, outside it), and `false` runs `else` with those it had at the start.
pub proof fn lemma_if_then_else_selects(
    m: SpecMachine,
    condition: SpecTerm,
    then: SpecTerm,
    else_: SpecTerm,
    n: u64,
    after: SpecMachine,
    b: bool,
)
    requires
        m.expression == spec_expand(
            SpecOperation::IfThenElse {
                condition: Box::new(condition),
                then: Box::new(then),
                else_: Box::new(else_),
            },
            n,
        ).0,
        m.steps as int + 2 <= u32::MAX,
        after.continuations == spec_stepped(m, 2).continuations,
        after.expression == SpecTerm::Choice(spec_boolean_choice(b)),
        after.steps as int + 2 <= u32::MAX,
    ensures
        ({
            let entered = spec_stepped(m, 2);
            let k = m.continuations.len();
            &&& entered.expression == spec_case(
                condition,
                SpecChoice::Exception(SpecException::Skip),
                spec_identity(spec_var_name(n)),
            )
            &&& entered.continuations.len() == k + 2
            &&& entered.continuations.subrange(0, k as int) == m.continuations
            &&& b ==> spec_stepped(after, 1).expression == then
            &&& b ==> spec_stepped(after, 1).continuations == m.continuations.push(
                (spec_boolean_choice(false), else_),
            )
            &&& !b ==> spec_stepped(after, 2).expression == else_
            &&& !b ==> spec_stepped(after, 2).continuations == m.continuations
        }),
{
    reveal_with_fuel(spec_stepped, 3);
    let entered = spec_stepped(m, 2);
    let k = m.continuations.len();
    assert(entered.continuations.subrange(0, k as int) =~= m.continuations);
    let a1 = spec_step(after).unwrap().0;
    assert(a1.continuations =~= entered.continuations.drop_last());
    assert(a1.continuations.drop_last() =~= m.continuations);
}

/// A while loop tests its condition before each pass and runs its body exactly while the
/// condition yields true. Running its expansion reaches, in four steps, the condition
/// followed by `<x>.x` with four continuations waiting above those it had. When the
/// condition ends in a boolean choice with those waiting, `true` runs the body with the
/// three outer ones waiting, and `false` leaves the loop: three steps later skip runs with
/// only the outermost waiting. When the body ends in skip with the three outer ones
/// waiting, three steps later the condition is tested again with all four waiting.
pub proof fn lemma_while_do_repeats(
    m: SpecMachine,
    condition: SpecTerm,
    body: SpecTerm,
    n: u64,
    after: SpecMachine,
    b: bool,
    done: SpecMachine,
)
    requires
        m.expression == spec_expand(
            SpecOperation::WhileDo { condition: Box::new(condition), term: Box::new(body) },
            n,
        ).0,
        m.steps as int + 4 <= u32::MAX,
        after.continuations == spec_stepped(m, 4).continuations,
        after.expression == SpecTerm::Choice(spec_boolean_choice(b)),
        after.steps as int + 3 <= u32::MAX,
        done.continuations == spec_stepped(m, 4).continuations.drop_last(),
        done.expression == SpecTerm::Choice(SpecChoice::Exception(SpecException::Skip)),
        done.steps as int + 3 <= u32::MAX,
    ensures
        ({
            let test = spec_case(
                condition,
                SpecChoice::Exception(SpecException::Skip),
                spec_identity(spec_var_name(n)),
            );
            let entered = spec_stepped(m, 4);
            let k = m.continuations.len();
            &&& entered.expression == test
            &&& entered.continuations.len() == k + 4
            &&& entered.continuations.subrange(0, k as int) == m.continuations
            &&& entered.continuations.last() == (spec_boolean_choice(true), body)
            &&& b ==> spec_stepped(after, 1).expression == body
            &&& b ==> spec_stepped(after, 1).continuations == done.continuations
            &&& !b ==> spec_stepped(after, 3).expression == SpecTerm::Choice(
                SpecChoice::Exception(SpecException::Skip),
            )
            &&& !b ==> spec_stepped(after, 3).continuations == entered.continuations.subrange(
                0,
                k + 1 as int,
            )
            &&& spec_stepped(done, 3).expression == test
            &&& spec_stepped(done, 3).continuations == entered.continuations
        }),
{
    reveal_with_fuel(spec_stepped, 2);
    let entered = spec_stepped(m, 4);
    let k = m.continuations.len();
    let m1 = spec_step(m).unwrap().0;
    let m2 = spec_step(m1).unwrap().0;
    let m3 = spec_step(m2).unwrap().0;
    let m4 = spec_step(m3).unwrap().0;
    assert(spec_stepped(m3, 1) == m4);
    assert(spec_stepped(m2, 2) == m4);
    assert(spec_stepped(m1, 3) == m4);
    assert(entered == m4);
    assert(entered.continuations.subrange(0, k as int) =~= m.continuations);
    let a1 = spec_step(after).unwrap().0;
    let a2 = spec_step(a1).unwrap().0;
    let a3 = spec_step(a2).unwrap().0;
    assert(spec_stepped(a2, 1) == a3);
    assert(spec_stepped(a1, 2) == a3);
    assert(spec_stepped(after, 1) == a1);
    assert(a1.continuations =~= entered.continuations.drop_last());
    if !b {
        assert(a2.continuations =~= entered.continuations.drop_last().drop_last());
        assert(a2.continuations.drop_last() =~= entered.continuations.subrange(0, k + 1 as int));
    }
    let d1 = spec_step(done).unwrap().0;
    let d2 = spec_step(d1).unwrap().0;
    let d3 = spec_step(d2).unwrap().0;
    assert(spec_stepped(d2, 1) == d3);
    assert(spec_stepped(d1, 2) == d3);
    assert(d1.continuations =~= done.continuations.drop_last());
    assert(d2.continuations =~= done.continuations);
    assert(d3.continuations =~= entered.continuations);
}

/// A name drawn from the counter never marks a function entry.
proof fn lemma_var_name_not_entry(n: u64)
    ensures
        !spec_ends_with(spec_var_name(n), spec_entry_suffix()),
{
    lemma_digits(n as nat, n as nat);
    let s = spec_var_name(n);
    let d = spec_digits(n as nat);
    assert(s.last() == d[d.len() - 1]);
    if spec_ends_with(s, spec_entry_suffix()) {
        assert(s.subrange(s.len() - 6, s.len() as int)[5] == s.last());
    }
}

/// A variable bound to a constant resolves to it.
proof fn lemma_resolve_bound_constant(env: Map<Seq<char>, SpecTerm>, x: Seq<char>, c: Constant)
    requires
        env.contains_key(x),
        env[x] == SpecTerm::Choice(SpecChoice::Constant(c)),
    ensures
        spec_resolve(env, SpecTerm::Variable { name: x }) == Some(
            SpecTerm::Choice(SpecChoice::Constant(c)),
        ),
{
    reveal_with_fuel(spec_chase, 2);
    lemma_resolve_at(env, SpecTerm::Variable { name: x }, 1);
}

/// A step on an abstraction over the main stack or a cell that is no function entry: the
/// top of the stack (a cell never written reads `0`) is popped, resolved and bound.
proof fn lemma_step_binds(m: SpecMachine, binds: Seq<char>, body: SpecTerm, l: SpecLocation)
    requires
        m.expression == (SpecTerm::Abstraction { binds, term: Box::new(body), location: l }),
        m.steps < u32::MAX,
        l == SpecLocation::Main || l is Cell,
        !spec_ends_with(binds, spec_entry_suffix()),
        l == SpecLocation::Main || m.memory.contains_key(l) ==> {
            &&& spec_stack(m.memory, l).len() >= 1
            &&& spec_resolve(m.environment, spec_stack(m.memory, l).last()) is Some
        },
    ensures
        ({
            let (m1, r) = spec_step(m).unwrap();
            let s = spec_stack(m.memory, l);
            let value = if l == SpecLocation::Main || m.memory.contains_key(l) {
                spec_resolve(m.environment, s.last()).unwrap()
            } else {
                SpecTerm::Choice(SpecChoice::Constant(Constant::Integer(0)))
            };
            &&& spec_step(m) is Some
            &&& r == StepResult::Continue
            &&& m1.expression == body
            &&& m1.environment == m.environment.insert(binds, value)
            &&& m1.continuations == m.continuations
            &&& m1.steps == m.steps + 1
            &&& m1.memory == if l == SpecLocation::Main || m.memory.contains_key(l) {
                m.memory.insert(l, s.drop_last())
            } else {
                m.memory.insert(l, Seq::empty())
            }
        }),
{
    let m0 = SpecMachine {
        steps: (m.steps + 1) as u32,
        expression: spec_identity(spec_var_name(m.next_var)),
        next_var: spec_next(m.next_var),
        ..m
    };
    let (m1, taken) = spec_get_from(m0, l);
    if l == SpecLocation::Main || m.memory.contains_key(l) {
        assert(taken == Some(spec_stack(m.memory, l).last()));
    } else {
        assert(taken == Some(SpecTerm::Choice(SpecChoice::Constant(Constant::Integer(0)))));
        lemma_resolve_at(m.environment, taken.unwrap(), 0);
    }
    assert(spec_entered(binds, body, m1) == (body, m1.next_var, m1.next_location));
}

/// A step on a case runs its term with the continuation waiting.
proof fn lemma_step_enters_case(m: SpecMachine, term: SpecTerm, exit: SpecChoice, then: SpecTerm)
    requires
        m.expression == (SpecTerm::Case { term: Box::new(term), exit, then: Box::new(then) }),
        m.steps < u32::MAX,
    ensures
        ({
            let (m1, r) = spec_step(m).unwrap();
            &&& spec_step(m) is Some
            &&& r == StepResult::Continue
            &&& m1.expression == term
            &&& m1.continuations == m.continuations.push((exit, then))
        }),
{
}

/// A step on an application to a location other than the output pushes the argument there.
proof fn lemma_step_pushes(m: SpecMachine, function: SpecTerm, argument: SpecTerm, l: SpecLocation)
    requires
        m.expression == (SpecTerm::Application {
            function: Box::new(function),
            argument: Box::new(argument),
            location: l,
        }),
        m.steps < u32::MAX,
        l != SpecLocation::Output,
    ensures
        ({
            let (m1, r) = spec_step(m).unwrap();
            &&& spec_step(m) is Some
            &&& r == StepResult::Continue
            &&& m1.expression == function
            &&& m1.environment == m.environment
            &&& m1.continuations == m.continuations
            &&& m1.steps == m.steps + 1
            &&& m1.memory == spec_push(m.memory, l, argument)
        }),
{
}

/// A step on a choice that the innermost continuation waits for goes on with it.
proof fn lemma_step_continues(m: SpecMachine, ch: SpecChoice)
    requires
        m.expression == SpecTerm::Choice(ch),
        m.steps < u32::MAX,
        m.continuations.len() >= 1,
        m.continuations.last().0 == ch,
    ensures
        ({
            let (m1, r) = spec_step(m).unwrap();
            &&& spec_step(m) is Some
            &&& r == StepResult::Continue
            &&& m1.expression == m.continuations.last().1
            &&& m1.environment == m.environment
            &&& m1.continuations == m.continuations.drop_last()
            &&& m1.steps == m.steps + 1
            &&& m1.memory == m.memory
        }),
{
}

/// A lookup of cell `c` reads the cell's top (resolved to no variable), or `0` where the
/// cell was never written: in three steps skip runs with the continuations as they were,
/// the main stack has one term more, which resolves to what was read, and the cell's top
/// resolves to it too.
pub proof fn lemma_lookup_reads(r: SpecMachine, c: Seq<char>, n: u64)
    requires
        r.expression == spec_expand(SpecOperation::Lookup { cell: c }, n).0,
        r.steps as int + 3 <= u32::MAX,
        r.memory.contains_key(SpecLocation::Cell(c)) ==> {
            &&& spec_stack(r.memory, SpecLocation::Cell(c)).len() >= 1
            &&& spec_resolve(r.environment, spec_stack(r.memory, SpecLocation::Cell(c)).last()) is Some
            &&& !(spec_resolve(
                r.environment,
                spec_stack(r.memory, SpecLocation::Cell(c)).last(),
            ).unwrap() is Variable)
        },
    ensures
        ({
            let d = spec_stepped(r, 3);
            let main = spec_stack(r.memory, SpecLocation::Main);
            let value = if r.memory.contains_key(SpecLocation::Cell(c)) {
                spec_resolve(r.environment, spec_stack(r.memory, SpecLocation::Cell(c)).last()).unwrap()
            } else {
                SpecTerm::Choice(SpecChoice::Constant(Constant::Integer(0)))
            };
            &&& d.expression == SpecTerm::Choice(SpecChoice::Exception(SpecException::Skip))
            &&& d.continuations == r.continuations
            &&& spec_stack(d.memory, SpecLocation::Main).len() == main.len() + 1
            &&& spec_stack(d.memory, SpecLocation::Main).drop_last() == main
            &&& spec_resolve(d.environment, spec_stack(d.memory, SpecLocation::Main).last())
                == Some(value)
            &&& spec_stack(d.memory, SpecLocation::Cell(c)).len() >= 1
            &&& spec_resolve(d.environment, spec_stack(d.memory, SpecLocation::Cell(c)).last())
                == Some(value)
        }),
{
    reveal_with_fuel(spec_stepped, 2);
    let x = spec_var_name(n);
    lemma_var_name_not_entry(n);
    let cell = SpecLocation::Cell(c);
    let skip_term = SpecTerm::Choice(SpecChoice::Exception(SpecException::Skip));
    let xv = SpecTerm::Variable { name: x };
    let to_main = SpecTerm::Application {
        function: Box::new(skip_term),
        argument: Box::new(xv),
        location: SpecLocation::Main,
    };
    let back = SpecTerm::Application { function: Box::new(to_main), argument: Box::new(xv), location: cell };
    lemma_step_binds(r, x, back, cell);
    let r1 = spec_step(r).unwrap().0;
    let value = r1.environment[x];
    if !r.memory.contains_key(cell) {
        lemma_resolve_at(r.environment, SpecTerm::Choice(SpecChoice::Constant(Constant::Integer(0))), 0);
    }
    lemma_step_pushes(r1, to_main, xv, cell);
    let r2 = spec_step(r1).unwrap().0;
    lemma_step_pushes(r2, skip_term, xv, SpecLocation::Main);
    let r3 = spec_step(r2).unwrap().0;
    assert(spec_stepped(r2, 1) == r3);
    assert(spec_stepped(r1, 2) == r3);
    assert(spec_stepped(r, 3) == r3);
    assert(spec_stack(r3.memory, SpecLocation::Main).drop_last() =~= spec_stack(r.memory, SpecLocation::Main));
    reveal_with_fuel(spec_chase, 2);
    lemma_resolve_at(r3.environment, xv, 1);
}

/// An update of cell `c` stores what its argument leaves on the main stack. Running its
/// expansion runs the argument first; when the argument ends in skip with a term on top of
/// the main stack that resolves to `value` (no variable), four steps later the update is
/// done: skip runs with the continuations of the start, the term has left the main stack,
/// and the cell's top resolves to `value`. (The cell's old top, if any, is popped and
/// resolved on the way, with the update's own name bound.)
pub proof fn lemma_update_stores(
    m: SpecMachine,
    argument: SpecTerm,
    c: Seq<char>,
    n: u64,
    after: SpecMachine,
    value: SpecTerm,
)
    requires
        m.expression == spec_expand(
            SpecOperation::Update { location: SpecLocation::Cell(c), argument: Box::new(argument) },
            n,
        ).0,
        m.steps < u32::MAX,
        after.continuations == spec_stepped(m, 1).continuations,
        after.expression == SpecTerm::Choice(SpecChoice::Exception(SpecException::Skip)),
        spec_stack(after.memory, SpecLocation::Main).len() >= 1,
        spec_resolve(after.environment, spec_stack(after.memory, SpecLocation::Main).last()) == Some(
            value,
        ),
        !(value is Variable),
        after.memory.contains_key(SpecLocation::Cell(c)) ==> {
            &&& spec_stack(after.memory, SpecLocation::Cell(c)).len() >= 1
            &&& spec_resolve(
                after.environment.insert(spec_var_name(n), value),
                spec_stack(after.memory, SpecLocation::Cell(c)).last(),
            ) is Some
        },
        after.steps as int + 4 <= u32::MAX,
    ensures
        ({
            let stored = spec_stepped(after, 4);
            &&& spec_stepped(m, 1).expression == argument
            &&& stored.expression == SpecTerm::Choice(SpecChoice::Exception(SpecException::Skip))
            &&& stored.continuations == m.continuations
            &&& stored.steps == after.steps + 4
            &&& spec_stack(stored.memory, SpecLocation::Main) == spec_stack(
                after.memory,
                SpecLocation::Main,
            ).drop_last()
            &&& stored.memory.contains_key(SpecLocation::Cell(c))
            &&& spec_stack(stored.memory, SpecLocation::Cell(c)).len() >= 1
            &&& spec_resolve(
                stored.environment,
                spec_stack(stored.memory, SpecLocation::Cell(c)).last(),
            ) == Some(value)
        }),
{
    reveal_with_fuel(spec_stepped, 2);
    let x = spec_var_name(n);
    lemma_var_name_not_entry(n);
    lemma_digits(n as nat, n as nat);
    assert(x != seq!['_']) by {
        assert(x.len() >= 2);
    }
    let cell = SpecLocation::Cell(c);
    let main = spec_stack(after.memory, SpecLocation::Main);
    let skip_term = SpecTerm::Choice(SpecChoice::Exception(SpecException::Skip));
    let xv = SpecTerm::Variable { name: x };
    let push_x = SpecTerm::Application { function: Box::new(skip_term), argument: Box::new(xv), location: cell };
    let forget = SpecTerm::Abstraction { binds: seq!['_'], term: Box::new(push_x), location: cell };
    let store = SpecTerm::Abstraction { binds: x, term: Box::new(forget), location: SpecLocation::Main };
    lemma_step_enters_case(m, argument, SpecChoice::Exception(SpecException::Skip), store);
    lemma_step_continues(after, SpecChoice::Exception(SpecException::Skip));
    let a1 = spec_step(after).unwrap().0;
    lemma_step_binds(a1, x, forget, SpecLocation::Main);
    let a2 = spec_step(a1).unwrap().0;
    assert(!spec_ends_with(seq!['_'], spec_entry_suffix()));
    lemma_step_binds(a2, seq!['_'], push_x, cell);
    let a3 = spec_step(a2).unwrap().0;
    lemma_step_pushes(a3, skip_term, xv, cell);
    let a4 = spec_step(a3).unwrap().0;
    assert(spec_stepped(a3, 1) == a4);
    assert(spec_stepped(a2, 2) == a4);
    assert(spec_stepped(a1, 3) == a4);
    assert(spec_stepped(after, 4) == a4);
    assert(spec_stack(a4.memory, SpecLocation::Main) =~= main.drop_last());
    reveal_with_fuel(spec_chase, 2);
    lemma_resolve_at(a4.environment, xv, 1);
}

/// A read gives back what a write wrote: after an update of cell `c` has stored `value`
/// (see `lemma_update_stores`), a lookup of `c` run next pushes a term that resolves to
/// `value` on the main stack, as a second lookup would again.
pub proof fn lemma_lookup_reads_update(
    m: SpecMachine,
    argument: SpecTerm,
    c: Seq<char>,
    n: u64,
    after: SpecMachine,
    value: SpecTerm,
    n2: u64,
)
    requires
        m.expression == spec_expand(
            SpecOperation::Update { location: SpecLocation::Cell(c), argument: Box::new(argument) },
            n,
        ).0,
        m.steps < u32::MAX,
        after.continuations == spec_stepped(m, 1).continuations,
        after.expression == SpecTerm::Choice(SpecChoice::Exception(SpecException::Skip)),
        spec_stack(after.memory, SpecLocation::Main).len() >= 1,
        spec_resolve(after.environment, spec_stack(after.memory, SpecLocation::Main).last()) == Some(
            value,
        ),
        !(value is Variable),
        after.memory.contains_key(SpecLocation::Cell(c)) ==> {
            &&& spec_stack(after.memory, SpecLocation::Cell(c)).len() >= 1
            &&& spec_resolve(
                after.environment.insert(spec_var_name(n), value),
                spec_stack(after.memory, SpecLocation::Cell(c)).last(),
            ) is Some
        },
        after.steps as int + 7 <= u32::MAX,
    ensures
        ({
            let stored = spec_stepped(after, 4);
            let read = spec_stepped(
                SpecMachine { expression: spec_expand(SpecOperation::Lookup { cell: c }, n2).0, ..stored },
                3,
            );
            let main = spec_stack(after.memory, SpecLocation::Main);
            &&& read.expression == SpecTerm::Choice(SpecChoice::Exception(SpecException::Skip))
            &&& read.continuations == m.continuations
            &&& spec_stack(read.memory, SpecLocation::Main).drop_last() == main.drop_last()
            &&& spec_resolve(read.environment, spec_stack(read.memory, SpecLocation::Main).last())
                == Some(value)
            &&& spec_resolve(read.environment, spec_stack(read.memory, SpecLocation::Cell(c)).last())
                == Some(value)
        }),
{
    lemma_update_stores(m, argument, c, n, after, value);
    let stored = spec_stepped(after, 4);
    let r = SpecMachine { expression: spec_expand(SpecOperation::Lookup { cell: c }, n2).0, ..stored };
    lemma_lookup_reads(r, c, n2);
}

/// A step on an application to the output writes the argument's resolved text as a line.
proof fn lemma_step_prints(m: SpecMachine, function: SpecTerm, argument: SpecTerm, value: SpecTerm)
    requires
        m.expression == (SpecTerm::Application {
            function: Box::new(function),
            argument: Box::new(argument),
            location: SpecLocation::Output,
        }),
        m.steps < u32::MAX,
        spec_resolve(m.environment, argument) == Some(value),
        spec_renderable(value),
    ensures
        ({
            let (m1, r) = spec_step(m).unwrap();
            &&& spec_step(m) is Some
            &&& r == StepResult::Continue
            &&& m1.expression == function
            &&& m1.continuations == m.continuations
            &&& m1.memory == m.memory
            &&& m1.output == m.output.push(spec_term_text(value, 0))
            &&& m1.steps == m.steps + 1
        }),
{
}

/// A write prints what its argument leaves on the main stack. Running its expansion runs
/// the argument first; when the argument ends in skip with a term on top of the main stack
/// that resolves to a printable `value` (no variable), three steps later the write is done:
/// skip runs with the continuations of the start, the term has left the main stack, and
/// the text of `value` is the one new line of output.
pub proof fn lemma_write_prints(
    m: SpecMachine,
    argument: SpecTerm,
    n: u64,
    after: SpecMachine,
    value: SpecTerm,
)
    requires
        m.expression == spec_expand(SpecOperation::Write { argument: Box::new(argument) }, n).0,
        m.steps < u32::MAX,
        after.continuations == spec_stepped(m, 1).continuations,
        after.expression == SpecTerm::Choice(SpecChoice::Exception(SpecException::Skip)),
        spec_stack(after.memory, SpecLocation::Main).len() >= 1,
        spec_resolve(after.environment, spec_stack(after.memory, SpecLocation::Main).last()) == Some(
            value,
        ),
        !(value is Variable),
        spec_renderable(value),
        after.steps as int + 3 <= u32::MAX,
    ensures
        ({
            let written = spec_stepped(after, 3);
            &&& spec_stepped(m, 1).expression == argument
            &&& written.expression == SpecTerm::Choice(SpecChoice::Exception(SpecException::Skip))
            &&& written.continuations == m.continuations
            &&& spec_stack(written.memory, SpecLocation::Main) == spec_stack(
                after.memory,
                SpecLocation::Main,
            ).drop_last()
            &&& written.output == after.output.push(spec_term_text(value, 0))
        }),
{
    reveal_with_fuel(spec_stepped, 2);
    let x = spec_var_name(n);
    lemma_var_name_not_entry(n);
    let main = spec_stack(after.memory, SpecLocation::Main);
    let skip_term = SpecTerm::Choice(SpecChoice::Exception(SpecException::Skip));
    let xv = SpecTerm::Variable { name: x };
    let print_x = SpecTerm::Application {
        function: Box::new(skip_term),
        argument: Box::new(xv),
        location: SpecLocation::Output,
    };
    let store = SpecTerm::Abstraction { binds: x, term: Box::new(print_x), location: SpecLocation::Main };
    lemma_step_enters_case(m, argument, SpecChoice::Exception(SpecException::Skip), store);
    lemma_step_continues(after, SpecChoice::Exception(SpecException::Skip));
    let a1 = spec_step(after).unwrap().0;
    lemma_step_binds(a1, x, print_x, SpecLocation::Main);
    let a2 = spec_step(a1).unwrap().0;
    reveal_with_fuel(spec_chase, 2);
    lemma_resolve_at(a2.environment, xv, 1);
    lemma_step_prints(a2, skip_term, xv, value);
    let a3 = spec_step(a2).unwrap().0;
    assert(spec_stepped(a2, 1) == a3);
    assert(spec_stepped(a1, 2) == a3);
    assert(spec_stepped(after, 3) == a3);
    assert(spec_stack(a3.memory, SpecLocation::Main) =~= main.drop_last());
}

} // verus!
