use vstd::prelude::*;

use crate::fmc_core::choice::{Choice, Constant, SpecChoice};
use crate::fmc_core::render::spec_renderable;
use crate::fmc_core::term::SpecTerm;
use crate::fmc_core::location::{Location, SpecLocation};
use crate::fmc_core::special::Special;
use crate::fmc_core::term::{
    option_view, spec_entry_suffix, spec_expand_operations, term_view, terms_view, text_ends_with, NameSupply, Term,
};
use crate::machines::machine::{Machine, StepResult};
use crate::machines::semantics::{
    lemma_resolve_at, lemma_step_laws, spec_draw, spec_drive, spec_need, Need, spec_arithmetic, spec_boolean_of, spec_chase, spec_comparison,
    spec_get_from, spec_integer_of, spec_pop_resolved, spec_resolve, spec_run, spec_settled,
    spec_special_step, spec_step, SpecMachine,
};
use crate::machines::stores::{lemma_stacks_index, spec_push, stacks_map, Bindings, Stacks};
use crate::machines::trace::{
    spec_continuations_text, spec_drive_trace, spec_drive_traceable, spec_items_text, spec_main_text, spec_named_stack_text,
    spec_named_stacks_text, spec_run_trace, spec_shown, spec_state, spec_state_renderable,
    spec_table_of, spec_traceable, states_view, text_map, trace_table, MachineState, SpecState,
    TraceTable,
};
use crate::machines::random::random_bit;
use crate::text::{owned, push_text};

verus! {

/// The Krivine machine: runs a term against stacks for its locations, binding the
/// variables of the abstractions it enters.
pub struct KrivineMachine {
    memory: Stacks,
    environment: Bindings,
    expression: Term,
    continuation_stack: Vec<(Choice, Term)>,
    pub steps: u32,
    pub silent: bool,
    output: Vec<String>,
    coins: Vec<bool>,
    names: NameSupply,
    trace: Vec<MachineState>,
}

/// The values of the continuations waiting for a choice.
pub open spec fn continuations_view(v: Seq<(Choice, Term)>) -> Seq<(SpecChoice, SpecTerm)> {
    Seq::new(v.len(), |i: int| (v[i].0@, v[i].1@))
}

impl View for KrivineMachine {
    type V = SpecMachine;

    closed spec fn view(&self) -> SpecMachine {
        SpecMachine {
            memory: self.memory@,
            environment: self.environment@,
            expression: self.expression@,
            continuations: continuations_view(self.continuation_stack@),
            steps: self.steps,
            silent: self.silent,
            output: self.output.deep_view(),
            coins: self.coins@,
            next_var: self.names.next_var,
            next_location: self.names.next_location,
        }
    }
}

impl KrivineMachine {
    /// Whether the stores of the machine are well formed.
    pub closed spec fn wf(&self) -> bool {
        self.memory.wf() && self.environment.wf()
    }

    /// A machine about to run the term, with empty stores, whose fresh names are numbered
    /// from 2^32 on, clear of the names a compiler draws from 1.
    pub fn new(expression: Term) -> (r: KrivineMachine)
        ensures
            r.wf(),
            r@ == (SpecMachine {
                memory: Map::empty(),
                environment: Map::empty(),
                expression: expression@,
                continuations: Seq::empty(),
                steps: 0,
                silent: false,
                output: Seq::empty(),
                coins: Seq::empty(),
                next_var: 0x1_0000_0000,
                next_location: 0x1_0000_0000,
            }),
            r.recorded() == Seq::<SpecState>::empty(),
    {
        KrivineMachine::with_names(expression, NameSupply::starting_at(0x1_0000_0000))
    }

    /// A machine about to run the term, drawing fresh names from `names`.
    pub fn with_names(expression: Term, names: NameSupply) -> (r: KrivineMachine)
        ensures
            r.wf(),
            r@ == (SpecMachine {
                memory: Map::empty(),
                environment: Map::empty(),
                expression: expression@,
                continuations: Seq::empty(),
                steps: 0,
                silent: false,
                output: Seq::empty(),
                coins: Seq::empty(),
                next_var: names.next_var,
                next_location: names.next_location,
            }),
            r.recorded() == Seq::<SpecState>::empty(),
    {
        let r = KrivineMachine {
            memory: Stacks::new(),
            environment: Bindings::new(),
            expression,
            continuation_stack: Vec::new(),
            steps: 0,
            silent: false,
            output: Vec::new(),
            coins: Vec::new(),
            names,
            trace: Vec::new(),
        };
        proof {
            assert(continuations_view(r.continuation_stack@) =~= Seq::<(SpecChoice, SpecTerm)>::empty());
            assert(r.output.deep_view() =~= Seq::<Seq<char>>::empty());
            assert(states_view(r.trace@) =~= Seq::<SpecState>::empty());
        }
        r
    }

    /// A term with bound variables looked up until it is no bound variable.
    fn resolve(&self, term: Term) -> (r: Term)
        requires
            self.environment.wf(),
            spec_resolve(self.environment@, term@) is Some,
        ensures
            spec_resolve(self.environment@, term@) == Some(r@),
    {
        let ghost env = self.environment@;
        let ghost t0 = term@;
        let ghost k = choose|k: nat| spec_settled(env, #[trigger] spec_chase(env, t0, k));
        let mut current = term;
        let ghost mut i: nat = 0;
        loop
            invariant
                self.environment.wf(),
                env == self.environment@,
                t0 == term@,
                current@ == spec_chase(env, t0, i),
                i <= k,
                spec_settled(env, spec_chase(env, t0, k)),
            decreases k - i,
        {
            let next = match &current {
                Term::Variable { name } => match self.environment.get(name.as_str()) {
                    Some(t) => Some(t.clone()),
                    None => None,
                },
                _ => None,
            };
            match next {
                Some(t) => {
                    proof {
                        assert(i < k);
                    }
                    current = t;
                    proof {
                        i = i + 1;
                    }
                },
                None => {
                    proof {
                        assert(spec_settled(env, current@));
                        lemma_resolve_at(env, t0, i);
                        assert(spec_resolve(env, t0) == Some(current@));
                    }
                    return current;
                },
            }
        }
    }

    /// Takes a term from a location: a supplied random choice, `0` from a cell or local that
    /// was never written, or the top of the location's stack.
    fn get_from(&mut self, location: &Location) -> (r: Option<Term>)
        requires
            old(self).wf(),
        ensures
            final(self).trace@ == old(self).trace@,
            final(self).wf(),
            (final(self)@, option_view(r)) == spec_get_from(old(self)@, location@),
    {
        match location {
            Location::Rnd | Location::RndBool => match self.coins.pop() {
                Some(b) => Some(Term::Choice(Choice::Constant(Constant::Boolean(b)))),
                None => None,
            },
            Location::RndFloat => None,
            Location::Cell(_) | Location::Local(_) => {
                if self.memory.contains(location) {
                    self.memory.pop(location)
                } else {
                    let empty: Vec<Term> = Vec::new();
                    proof {
                        assert(terms_view(empty@) =~= Seq::<SpecTerm>::empty());
                    }
                    self.memory.set(location.clone(), empty);
                    Some(Term::Choice(Choice::Constant(Constant::Integer(0))))
                }
            },
            _ => self.memory.pop(location),
        }
    }

    /// Pops the main stack and resolves the term popped.
    fn pop_resolved(&mut self) -> (r: Option<Term>)
        requires
            old(self).wf(),
            spec_pop_resolved(old(self)@) is Some,
        ensures
            final(self).trace@ == old(self).trace@,
            final(self).wf(),
            spec_pop_resolved(old(self)@) == Some((final(self)@, option_view(r))),
    {
        match self.memory.pop(&Location::Main) {
            Some(t) => Some(self.resolve(t)),
            None => None,
        }
    }

    /// The boolean a term holds, if it is a boolean choice.
    fn boolean_of(t: &Term) -> (r: Option<bool>)
        ensures
            r == spec_boolean_of(t@),
    {
        match t {
            Term::Choice(Choice::Constant(Constant::Boolean(b))) => Some(*b),
            _ => None,
        }
    }

    /// The integer a term holds, if it is an integer choice.
    fn integer_of(t: &Term) -> (r: Option<i32>)
        ensures
            r == spec_integer_of(t@),
    {
        match t {
            Term::Choice(Choice::Constant(Constant::Integer(n))) => Some(*n),
            _ => None,
        }
    }

    /// An arithmetic primitive on integers, by Rust's checked integer operations.
    fn arithmetic(s: Special, a: i32, b: i32) -> (r: Option<i32>)
        ensures
            r == spec_arithmetic(s, a, b),
    {
        match s {
            Special::Addition => a.checked_add(b),
            Special::Subraction => a.checked_sub(b),
            Special::Multiplication => a.checked_mul(b),
            Special::Division => a.checked_div(b),
            _ => a.checked_rem(b),
        }
    }

    /// A comparison primitive on integers.
    fn comparison(s: Special, a: i32, b: i32) -> (r: bool)
        ensures
            r == spec_comparison(s, a, b),
    {
        match s {
            Special::LessThan => a < b,
            Special::GreaterThan => a > b,
            Special::LessThanEqual => a <= b,
            _ => a >= b,
        }
    }

    /// Pushes a result on the main stack and runs the skip choice next.
    fn give(&mut self, t: Term) -> (r: StepResult)
        requires
            old(self).wf(),
        ensures
            final(self).trace@ == old(self).trace@,
            final(self).wf(),
            (final(self)@, r) == crate::machines::semantics::spec_give(old(self)@, t@),
    {
        self.memory.push(Location::Main, t);
        self.expression = Term::Choice(Choice::skip());
        StepResult::Continue
    }

    /// A step that runs a primitive on the main stack.
    fn special_step(&mut self, s: Special) -> (r: StepResult)
        requires
            old(self).wf(),
            spec_special_step(old(self)@, s) is Some,
        ensures
            final(self).trace@ == old(self).trace@,
            final(self).wf(),
            spec_special_step(old(self)@, s) == Some((final(self)@, r)),
    {
        match s {
            Special::LogicNot | Special::IntCast => {
                match self.pop_resolved() {
                    Some(v) => {
                        if matches!(s, Special::LogicNot) {
                            match Self::boolean_of(&v) {
                                Some(b) => self.give(
                                    Term::Choice(Choice::Constant(Constant::Boolean(!b))),
                                ),
                                None => StepResult::Failure,
                            }
                        } else {
                            match Self::integer_of(&v) {
                                Some(n) => self.give(
                                    Term::Choice(Choice::Constant(Constant::Integer(n))),
                                ),
                                None => StepResult::Failure,
                            }
                        }
                    },
                    None => StepResult::Failure,
                }
            },
            _ => {
                let second = self.pop_resolved();
                let first = self.pop_resolved();
                match (first, second) {
                    (Some(f), Some(g)) => match s {
                        Special::LogicOr | Special::LogicAnd => {
                            match (Self::boolean_of(&f), Self::boolean_of(&g)) {
                                (Some(a), Some(b)) => {
                                    let v = if matches!(s, Special::LogicOr) {
                                        a || b
                                    } else {
                                        a && b
                                    };
                                    self.give(Term::Choice(Choice::Constant(Constant::Boolean(v))))
                                },
                                _ => StepResult::Failure,
                            }
                        },
                        Special::Equal => {
                            let v = f.same(&g);
                            self.give(Term::Choice(Choice::Constant(Constant::Boolean(v))))
                        },
                        Special::NotEqual => {
                            let v = !f.same(&g);
                            self.give(Term::Choice(Choice::Constant(Constant::Boolean(v))))
                        },
                        Special::LessThan | Special::GreaterThan | Special::LessThanEqual
                        | Special::GreaterThanEqual => {
                            match (Self::integer_of(&f), Self::integer_of(&g)) {
                                (Some(a), Some(b)) => {
                                    let v = Self::comparison(s, a, b);
                                    self.give(Term::Choice(Choice::Constant(Constant::Boolean(v))))
                                },
                                _ => StepResult::Failure,
                            }
                        },
                        _ => match (Self::integer_of(&f), Self::integer_of(&g)) {
                            (Some(a), Some(b)) => match Self::arithmetic(s, a, b) {
                                Some(v) => self.give(
                                    Term::Choice(Choice::Constant(Constant::Integer(v))),
                                ),
                                None => StepResult::Failure,
                            },
                            _ => StepResult::Failure,
                        },
                    },
                    _ => StepResult::Failure,
                }
            },
        }
    }

    /// The lines written to the output location so far.
    pub fn output_buffer(&self) -> (r: &[String])
        ensures
            r@.len() == self@.output.len(),
            forall|i: int| 0 <= i < r@.len() ==> #[trigger] r@[i]@ == self@.output[i],
    {
        self.output.as_slice()
    }

    /// The states recorded by traced runs.
    pub closed spec fn recorded(&self) -> Seq<SpecState> {
        states_view(self.trace@)
    }

    /// Appends the terms of a stack, bottom first, each after a `•`.
    fn push_items(out: &mut String, items: &Vec<Term>)
        requires
            forall|i: int| 0 <= i < items.len() ==> spec_renderable(#[trigger] items@[i]@),
        ensures
            final(out)@ == old(out)@ + spec_items_text(terms_view(items@)),
    {
        let ghost all = terms_view(items@);
        let mut j: usize = 0;
        proof {
            assert(all.subrange(0, 0) =~= Seq::<SpecTerm>::empty());
            assert(out@ =~= old(out)@ + spec_items_text(all.subrange(0, 0)));
        }
        while j < items.len()
            invariant
                j <= items.len(),
                all == terms_view(items@),
                forall|i: int| 0 <= i < items.len() ==> spec_renderable(#[trigger] items@[i]@),
                out@ == old(out)@ + spec_items_text(all.subrange(0, j as int)),
            decreases items.len() - j,
        {
            proof {
                assert(all.subrange(0, j + 1).drop_last() =~= all.subrange(0, j as int));
                assert(all.subrange(0, j + 1).last() == items@[j as int]@);
            }
            push_text(out, "•");
            push_text(out, items[j].to_text().as_str());
            j = j + 1;
            proof {
                assert(out@ =~= old(out)@ + spec_items_text(all.subrange(0, j as int)));
            }
        }
        proof {
            assert(all.subrange(0, items.len() as int) =~= all);
        }
    }

    /// The text of a named stack: `ε`, the name, then its terms.
    fn named_stack_text(name: &String, items: &Vec<Term>) -> (r: String)
        requires
            forall|i: int| 0 <= i < items.len() ==> spec_renderable(#[trigger] items@[i]@),
        ensures
            r@ == spec_named_stack_text(name@, terms_view(items@)),
    {
        let mut text = owned("ε");
        push_text(&mut text, name.as_str());
        Self::push_items(&mut text, items);
        text
    }

    /// The state of the machine as text, as a trace shows it.
    pub fn get_state(&self) -> (r: MachineState)
        requires
            self.wf(),
            spec_state_renderable(self@),
        ensures
            r@ == spec_state(self@),
    {
        let entries = self.memory.entries();
        let ghost all = entries@;
        let mut cells: Vec<(String, String)> = Vec::new();
        let mut locals: Vec<(String, String)> = Vec::new();
        let mut stacks: Vec<(String, String)> = Vec::new();
        let mut main_stack = owned("ελ");
        let mut i: usize = 0;
        proof {
            assert(all.subrange(0, 0) =~= Seq::<(Location, Vec<Term>)>::empty());
            assert(text_map(cells@) =~= spec_named_stacks_text(stacks_map(all.subrange(0, 0)), 0));
            assert(text_map(locals@) =~= spec_named_stacks_text(stacks_map(all.subrange(0, 0)), 1));
            assert(text_map(stacks@) =~= spec_named_stacks_text(stacks_map(all.subrange(0, 0)), 2));
        }
        while i < entries.len()
            invariant
                i <= entries.len(),
                all == entries@,
                stacks_map(all) == self@.memory,
                crate::machines::stores::stacks_distinct(all),
                spec_state_renderable(self@),
                text_map(cells@) == spec_named_stacks_text(stacks_map(all.subrange(0, i as int)), 0),
                text_map(locals@) == spec_named_stacks_text(stacks_map(all.subrange(0, i as int)), 1),
                text_map(stacks@) == spec_named_stacks_text(stacks_map(all.subrange(0, i as int)), 2),
                main_stack@ == spec_main_text(stacks_map(all.subrange(0, i as int))),
            decreases entries.len() - i,
        {
            let ghost before = stacks_map(all.subrange(0, i as int));
            let ghost l = all[i as int].0@;
            let ghost items = terms_view(all[i as int].1@);
            proof {
                assert(all.subrange(0, i + 1).drop_last() =~= all.subrange(0, i as int));
                assert(stacks_map(all.subrange(0, i + 1)) == before.insert(l, items));
                lemma_stacks_index(all, i as int);
                if spec_shown(l) {
                    assert forall|k: int| 0 <= k < entries@[i as int].1.len() implies spec_renderable(
                        #[trigger] entries@[i as int].1@[k]@,
                    ) by {
                        assert(self@.memory[l][k] == entries@[i as int].1@[k]@);
                    }
                }
            }
            let ghost after = before.insert(l, items);
            match &entries[i].0 {
                Location::Cell(name) => {
                    let text = Self::named_stack_text(name, &entries[i].1);
                    let ghost old_cells = cells@;
                    cells.push((name.clone(), text));
                    proof {
                        assert(cells@.drop_last() =~= old_cells);
                        assert(text_map(cells@) == text_map(old_cells).insert(name@, text@));
                        assert(text_map(cells@) =~= spec_named_stacks_text(after, 0));
                        assert(text_map(locals@) =~= spec_named_stacks_text(after, 1));
                        assert(text_map(stacks@) =~= spec_named_stacks_text(after, 2));
                    }
                },
                Location::Local(name) => {
                    let text = Self::named_stack_text(name, &entries[i].1);
                    let ghost old_locals = locals@;
                    locals.push((name.clone(), text));
                    proof {
                        assert(locals@.drop_last() =~= old_locals);
                        assert(text_map(locals@) == text_map(old_locals).insert(name@, text@));
                        assert(text_map(cells@) =~= spec_named_stacks_text(after, 0));
                        assert(text_map(locals@) =~= spec_named_stacks_text(after, 1));
                        assert(text_map(stacks@) =~= spec_named_stacks_text(after, 2));
                    }
                },
                Location::Stack(name) => {
                    let text = Self::named_stack_text(name, &entries[i].1);
                    let ghost old_stacks = stacks@;
                    stacks.push((name.clone(), text));
                    proof {
                        assert(stacks@.drop_last() =~= old_stacks);
                        assert(text_map(stacks@) == text_map(old_stacks).insert(name@, text@));
                        assert(text_map(cells@) =~= spec_named_stacks_text(after, 0));
                        assert(text_map(locals@) =~= spec_named_stacks_text(after, 1));
                        assert(text_map(stacks@) =~= spec_named_stacks_text(after, 2));
                    }
                },
                Location::Main => {
                    let mut text = owned("ελ");
                    Self::push_items(&mut text, &entries[i].1);
                    main_stack = text;
                    proof {
                        assert(text_map(cells@) =~= spec_named_stacks_text(after, 0));
                        assert(text_map(locals@) =~= spec_named_stacks_text(after, 1));
                        assert(text_map(stacks@) =~= spec_named_stacks_text(after, 2));
                    }
                },
                _ => {
                    proof {
                        assert(text_map(cells@) =~= spec_named_stacks_text(after, 0));
                        assert(text_map(locals@) =~= spec_named_stacks_text(after, 1));
                        assert(text_map(stacks@) =~= spec_named_stacks_text(after, 2));
                    }
                },
            }
            i = i + 1;
        }
        proof {
            assert(all.subrange(0, entries.len() as int) =~= all);
        }
        let expression = self.expression.to_text();
        let continuation_stack = self.continuations_text();
        MachineState { cells, locals, stacks, main_stack, expression, continuation_stack }
    }

    /// The continuations as text, the top one first, ending with `ε`.
    fn continuations_text(&self) -> (r: String)
        requires
            spec_state_renderable(self@),
        ensures
            r@ == spec_continuations_text(self@.continuations),
    {
        let ghost all = continuations_view(self.continuation_stack@);
        let mut text = owned("ε");
        let mut j: usize = 0;
        proof {
            assert(all.subrange(0, 0) =~= Seq::<(SpecChoice, SpecTerm)>::empty());
        }
        while j < self.continuation_stack.len()
            invariant
                j <= self.continuation_stack.len(),
                all == continuations_view(self.continuation_stack@),
                spec_state_renderable(self@),
                text@ == spec_continuations_text(all.subrange(0, j as int)),
            decreases self.continuation_stack.len() - j,
        {
            proof {
                assert(all.subrange(0, j + 1).drop_last() =~= all.subrange(0, j as int));
                assert(all.subrange(0, j + 1).last() == all[j as int]);
                assert(spec_renderable(self@.continuations[j as int].1));
            }
            let mut next = owned("(");
            push_text(&mut next, self.continuation_stack[j].0.to_text().as_str());
            push_text(&mut next, "→");
            push_text(&mut next, self.continuation_stack[j].1.to_text().as_str());
            push_text(&mut next, ")");
            push_text(&mut next, text.as_str());
            text = next;
            j = j + 1;
        }
        proof {
            assert(all.subrange(0, self.continuation_stack.len() as int) =~= all);
        }
        text
    }

    /// The states recorded by traced runs, each before its step.
    pub fn recorded_states(&self) -> (r: &Vec<MachineState>)
        ensures
            states_view(r@) == self.recorded(),
    {
        &self.trace
    }

    /// The recorded states laid out as a table.
    pub fn trace_table(&self) -> (r: TraceTable)
        ensures
            spec_table_of(self.recorded(), r.lines.deep_view()),
    {
        trace_table(&self.trace)
    }

    /// The lines written to the output location, taken out of the machine.
    pub fn take_output(self) -> (r: Vec<String>)
        ensures
            r.deep_view() == self@.output,
    {
        self.output
    }

    /// Puts the inputs on the input stack, the first on top.
    pub fn seed_input(&mut self, inputs: Vec<Term>)
        requires
            old(self).wf(),
        ensures
            final(self).wf(),
            final(self)@ == (SpecMachine {
                memory: old(self)@.memory.insert(SpecLocation::Input, terms_view(inputs@).reverse()),
                ..old(self)@
            }),
            final(self).recorded() == old(self).recorded(),
    {
        let ghost all = terms_view(inputs@);
        let mut inputs = inputs;
        let mut stack: Vec<Term> = Vec::new();
        while inputs.len() > 0
            invariant
                inputs.len() <= all.len(),
                forall|j: int| 0 <= j < inputs.len() ==> #[trigger] inputs@[j]@ == all[j],
                terms_view(stack@) == all.subrange(inputs.len() as int, all.len() as int).reverse(),
            decreases inputs.len(),
        {
            let ghost before = stack@;
            let ghost k = inputs.len() as int;
            let t = inputs.pop().unwrap();
            stack.push(t);
            proof {
                assert(t@ == all[k - 1]);
                assert(terms_view(stack@) =~= terms_view(before).push(t@));
                assert(all.subrange(k - 1, all.len() as int).reverse() =~= all.subrange(
                    k,
                    all.len() as int,
                ).reverse().push(all[k - 1]));
            }
        }
        proof {
            assert(all.subrange(0, all.len() as int) =~= all);
        }
        self.memory.set(Location::Input, stack);
    }

    /// Supplies a random choice for a later read of a random location.
    pub fn supply_random(&mut self, choice: bool)
        requires
            old(self).wf(),
        ensures
            final(self).wf(),
            final(self)@ == (SpecMachine { coins: old(self)@.coins.push(choice), ..old(self)@ }),
            final(self).recorded() == old(self).recorded(),
    {
        self.coins.push(choice);
    }

    /// Supplies a term read from the input for the next read of the input location.
    pub fn supply_input(&mut self, t: Term)
        requires
            old(self).wf(),
        ensures
            final(self).wf(),
            final(self)@ == (SpecMachine {
                memory: spec_push(old(self)@.memory, SpecLocation::Input, t@),
                ..old(self)@
            }),
            final(self).recorded() == old(self).recorded(),
    {
        self.memory.push(Location::Input, t);
    }

    /// What the next step needs from outside the machine: a random choice, a line of input,
    /// or nothing.
    pub fn need(&self) -> (r: Need)
        requires
            self.wf(),
        ensures
            r == spec_need(self@),
    {
        match &self.expression {
            Term::Abstraction { location, .. } => match location {
                Location::Rnd | Location::RndBool => if self.coins.len() == 0 {
                    Need::RandomChoice
                } else {
                    Need::Nothing
                },
                Location::Input => {
                    let empty = match self.memory.get(&Location::Input) {
                        Some(stack) => stack.len() == 0,
                        None => true,
                    };
                    if empty {
                        Need::Input
                    } else {
                        Need::Nothing
                    }
                },
                _ => Need::Nothing,
            },
            _ => Need::Nothing,
        }
    }

    /// The text of the term about to run (what the machine prints as its expression).
    pub fn expression_text(&self) -> (r: String)
        requires
            spec_renderable(self@.expression),
        ensures
            r@ == crate::fmc_core::render::spec_term_text(self@.expression, 0),
    {
        self.expression.to_text()
    }

    /// The number of steps taken.
    pub fn steps_taken(&self) -> (r: u32)
        ensures
            r == self@.steps,
    {
        self.steps
    }

    /// The supply of fresh names as the machine has left it.
    pub fn names(&self) -> (r: NameSupply)
        ensures
            r.next_var == self@.next_var,
            r.next_location == self@.next_location,
    {
        self.names
    }
}

/// One step of a run that draws random choices: how running, its trace and its
/// traceability from a state relate to those from the state after the step.
proof fn lemma_drive_step(
    before: SpecMachine,
    bits: Seq<bool>,
    m0: SpecMachine,
    rest: Seq<bool>,
    m1: SpecMachine,
    result: StepResult,
)
    requires
        before.steps != u32::MAX,
        spec_draw(before, bits) == (m0, rest),
        m0.steps == before.steps,
        spec_step(m0) == Some((m1, result)),
        m1.steps == before.steps + 1,
    ensures
        spec_drive(before, bits) == if result == StepResult::Continue {
            spec_drive(m1, rest)
        } else {
            Some((m1, result))
        },
        spec_drive_trace(before, bits) == seq![spec_state(m0)] + if result == StepResult::Continue {
            spec_drive_trace(m1, rest)
        } else {
            Seq::<SpecState>::empty()
        },
        spec_drive_traceable(before, bits) == (spec_state_renderable(m0) && (result
            == StepResult::Continue ==> spec_drive_traceable(m1, rest))),
{
}

impl KrivineMachine {
    /// Performs transition steps until the machine stops or fails, drawing a random choice
    /// whenever a step reads a random location with none supplied; with `trace`, the state
    /// about to step is recorded each time. A run that reaches the last value of the step
    /// counter stops there with `Failure`. The choices are random, so the result is stated
    /// for some sequence of choices: that of the choices drawn.
    #[verifier::rlimit(60)]
    pub fn run_drawing(&mut self, trace: bool) -> (r: StepResult)
        requires
            old(self).wf(),
            forall|bits: Seq<bool>| #[trigger] spec_drive(old(self)@, bits) is Some,
            trace ==> forall|bits: Seq<bool>| #[trigger] spec_drive_traceable(old(self)@, bits),
        ensures
            final(self).wf(),
            exists|bits: Seq<bool>|
                {
                    &&& #[trigger] spec_drive(old(self)@, bits) == Some((final(self)@, r))
                    &&& final(self).recorded() == old(self).recorded() + if trace {
                        spec_drive_trace(old(self)@, bits)
                    } else {
                        Seq::<SpecState>::empty()
                    }
                },
    {
        let ghost start = self@;
        let ghost start_recorded = self.recorded();
        let ghost mut drawn: Seq<bool> = Seq::empty();
        proof {
            assert forall|f: Seq<bool>| #[trigger] spec_drive(start, drawn + f) == spec_drive(self@, f) by {
                assert(drawn + f =~= f);
            }
            assert forall|f: Seq<bool>| #[trigger] spec_drive_traceable(start, drawn + f)
                implies spec_drive_traceable(self@, f) by {
                assert(drawn + f =~= f);
            }
            assert forall|f: Seq<bool>| trace implies start_recorded + #[trigger] spec_drive_trace(start, drawn + f)
                == self.recorded() + spec_drive_trace(self@, f) by {
                assert(drawn + f =~= f);
                assert(start_recorded + spec_drive_trace(start, f) =~= self.recorded() + spec_drive_trace(self@, f));
            }
        }
        loop
            invariant
                self.wf(),
                start == old(self)@,
                start_recorded == old(self).recorded(),
                forall|f: Seq<bool>| #[trigger] spec_drive(start, drawn + f) == spec_drive(self@, f),
                forall|bits: Seq<bool>| #[trigger] spec_drive(start, bits) is Some,
                trace ==> forall|bits: Seq<bool>| #[trigger] spec_drive_traceable(start, bits),
                forall|f: Seq<bool>| #[trigger] spec_drive_traceable(start, drawn + f)
                    ==> spec_drive_traceable(self@, f),
                trace ==> forall|f: Seq<bool>| start_recorded + #[trigger] spec_drive_trace(start, drawn + f)
                    == self.recorded() + spec_drive_trace(self@, f),
                !trace ==> self.recorded() == start_recorded,
            decreases u32::MAX - self.steps,
        {
            let ghost before = self@;
            let ghost before_recorded = self.recorded();
            proof {
                assert(drawn + Seq::<bool>::empty() =~= drawn);
            }
            if self.steps == u32::MAX {
                proof {
                    assert(spec_drive(self@, Seq::<bool>::empty()) == Some((self@, StepResult::Failure)));
                    assert(spec_drive(start, drawn + Seq::<bool>::empty()) == Some((self@, StepResult::Failure)));
                    assert(spec_drive(start, drawn) == Some((self@, StepResult::Failure)));
                    if trace {
                        assert(spec_drive_trace(self@, Seq::<bool>::empty()) == Seq::<SpecState>::empty());
                        assert(start_recorded + spec_drive_trace(start, drawn + Seq::<bool>::empty())
                            == self.recorded() + spec_drive_trace(self@, Seq::<bool>::empty()));
                        assert(self.recorded() =~= start_recorded + spec_drive_trace(start, drawn));
                    }
                    assert(self.recorded() == start_recorded + if trace {
                        spec_drive_trace(start, drawn)
                    } else {
                        Seq::<SpecState>::empty()
                    }) by {
                        if !trace {
                            assert(start_recorded + Seq::<SpecState>::empty() =~= start_recorded);
                        }
                    }
                }
                return StepResult::Failure;
            }
            let ghost mut pre: Seq<bool> = Seq::empty();
            if self.need() == Need::RandomChoice {
                let bit = random_bit();
                self.supply_random(bit);
                proof {
                    pre = seq![bit];
                }
            }
            let ghost m0 = self@;
            proof {
                assert forall|g: Seq<bool>| #[trigger] spec_draw(before, pre + g) == (m0, g) by {
                    if pre.len() > 0 {
                        assert((pre + g)[0] == pre[0]);
                        assert((pre + g).drop_first() =~= g);
                    } else {
                        assert(pre + g =~= g);
                    }
                }
                let e = Seq::<bool>::empty();
                assert(drawn + (pre + e) =~= drawn + pre);
                assert(pre + e =~= pre);
                assert(spec_draw(before, pre + e) == (m0, e));
                assert(spec_drive(before, pre + e) is Some) by {
                    assert(spec_drive(start, drawn + (pre + e)) is Some);
                }
                if trace {
                    assert(spec_drive_traceable(start, drawn + (pre + e)));
                    assert(spec_drive_traceable(before, pre + e));
                }
            }
            if trace {
                let state = self.get_state();
                self.trace.push(state);
                proof {
                    assert(self.recorded() =~= before_recorded.push(spec_state(m0)));
                }
            }
            let result = self.step();
            proof {
                lemma_step_laws(m0);
                let new_drawn = drawn + pre;
                assert forall|g: Seq<bool>| #[trigger] spec_drive(start, new_drawn + g) == (if result
                    == StepResult::Continue {
                    spec_drive(self@, g)
                } else {
                    Some((self@, result))
                }) by {
                    assert(new_drawn + g =~= drawn + (pre + g));
                    lemma_drive_step(before, pre + g, m0, g, self@, result);
                }
                if result == StepResult::Continue {
                    assert forall|g: Seq<bool>| #[trigger] spec_drive_traceable(start, new_drawn + g)
                        implies spec_drive_traceable(self@, g) by {
                        assert(new_drawn + g =~= drawn + (pre + g));
                        lemma_drive_step(before, pre + g, m0, g, self@, result);
                    }
                    if trace {
                        assert forall|g: Seq<bool>| start_recorded + #[trigger] spec_drive_trace(
                            start,
                            new_drawn + g,
                        ) == self.recorded() + spec_drive_trace(self@, g) by {
                            assert(new_drawn + g =~= drawn + (pre + g));
                            lemma_drive_step(before, pre + g, m0, g, self@, result);
                            assert(start_recorded + spec_drive_trace(start, drawn + (pre + g))
                                == before_recorded + spec_drive_trace(before, pre + g));
                            assert(before_recorded + (seq![spec_state(m0)] + spec_drive_trace(self@, g))
                                =~= self.recorded() + spec_drive_trace(self@, g));
                        }
                    }
                } else {
                    let e = Seq::<bool>::empty();
                    assert(new_drawn + e =~= new_drawn);
                    assert(spec_drive(start, new_drawn) == Some((self@, result))) by {
                        assert(spec_drive(start, new_drawn + e) == Some((self@, result)));
                    }
                    if trace {
                        assert(new_drawn =~= drawn + (pre + e));
                        lemma_drive_step(before, pre + e, m0, e, self@, result);
                        assert(start_recorded + spec_drive_trace(start, drawn + (pre + e))
                            == before_recorded + spec_drive_trace(before, pre + e));
                        assert(self.recorded() =~= start_recorded + spec_drive_trace(start, new_drawn));
                    }
                }
                drawn = new_drawn;
            }
            if result != StepResult::Continue {
                proof {
                    assert(spec_drive(start, drawn) == Some((self@, result)));
                    assert(self.recorded() == start_recorded + if trace {
                        spec_drive_trace(start, drawn)
                    } else {
                        Seq::<SpecState>::empty()
                    }) by {
                        if !trace {
                            assert(start_recorded + Seq::<SpecState>::empty() =~= start_recorded);
                        }
                    }
                }
                return result;
            }
        }
    }
}

impl Machine for KrivineMachine {
    open spec fn well_formed(&self) -> bool {
        self.wf()
    }

    open spec fn steppable(&self) -> bool {
        spec_step(self@) is Some
    }

    open spec fn runnable(&self) -> bool {
        spec_run(self@) is Some
    }

    open spec fn traceable(&self) -> bool {
        spec_traceable(self@)
    }

    /// Whether output is also echoed as it is written.
    fn set_silent(&mut self, to: bool)
        ensures
            final(self)@ == (SpecMachine { silent: to, ..old(self)@ }),
            final(self).recorded() == old(self).recorded(),
    {
        self.silent = to;
    }

    /// Expands every operation of the term about to run.
    fn expand_expression(&mut self)
        ensures
            ({
                let (e, n) = spec_expand_operations(old(self)@.expression, old(self)@.next_var);
                final(self)@ == (SpecMachine { expression: e, next_var: n, ..old(self)@ })
            }),
    {
        self.expression = self.expression.expand_operations(&mut self.names);
    }

    /// The lines written to the output location so far.
    fn output(&self) -> (r: &[String])
        ensures
            r@.len() == self@.output.len(),
            forall|i: int| 0 <= i < r@.len() ==> #[trigger] r@[i]@ == self@.output[i],
    {
        self.output.as_slice()
    }

    /// Performs the next transition step.
    fn step(&mut self) -> (r: StepResult)
        ensures
            spec_step(old(self)@) == Some((final(self)@, r)),
            final(self).recorded() == old(self).recorded(),
    {
        proof {
            reveal_with_fuel(term_view, 2);
        }
        self.steps = self.steps + 1;
        let mut expr = Term::id(&mut self.names);
        std::mem::swap(&mut expr, &mut self.expression);
        match expr {
            Term::Application { function, argument, location } => {
                match location {
                    Location::Output => {
                        let resolved = self.resolve(*argument);
                        let text = resolved.to_text();
                        let ghost before = self.output.deep_view();
                        self.output.push(text);
                        proof {
                            assert(self.output.deep_view() =~= before.push(text@));
                        }
                    },
                    _ => {
                        self.memory.push(location, *argument);
                    },
                }
                self.expression = *function;
                StepResult::Continue
            },
            Term::Abstraction { binds, term, location } => {
                match self.get_from(&location) {
                    Some(argument) => {
                        let closed = self.resolve(argument);
                        proof {
                            reveal_strlit("_entry");
                            assert("_entry"@ =~= spec_entry_suffix());
                        }
                        let body = if text_ends_with(binds.as_str(), "_entry") {
                            let fresh_locals = term.freshen_locations(&mut self.names);
                            fresh_locals.freshen_variables(&mut self.names)
                        } else {
                            *term
                        };
                        self.environment.insert(binds, closed);
                        self.expression = body;
                        StepResult::Continue
                    },
                    None => StepResult::Failure,
                }
            },
            Term::Variable { name } => {
                let bound = match self.environment.get(name.as_str()) {
                    Some(t) => Some(t.clone()),
                    None => None,
                };
                match bound {
                    Some(t) => {
                        self.expression = t;
                        StepResult::Continue
                    },
                    None => StepResult::Failure,
                }
            },
            Term::Operation(operation) => {
                self.expression = operation.expand(&mut self.names);
                StepResult::Continue
            },
            Term::Choice(choice) => {
                let ghost before = self.continuation_stack@;
                match self.continuation_stack.pop() {
                    Some((branch, continuation)) => {
                        proof {
                            assert(continuations_view(self.continuation_stack@) =~= continuations_view(
                                before,
                            ).drop_last());
                        }
                        if branch.same(&choice) {
                            self.expression = continuation;
                        } else {
                            self.expression = Term::Choice(choice);
                        }
                        StepResult::Continue
                    },
                    None => StepResult::Stop,
                }
            },
            Term::Case { term, exit, then } => {
                self.expression = *term;
                let ghost before = self.continuation_stack@;
                self.continuation_stack.push((exit, *then));
                proof {
                    assert(continuations_view(self.continuation_stack@) =~= continuations_view(
                        before,
                    ).push((exit@, then@)));
                }
                StepResult::Continue
            },
            Term::Loop { term, branch } => {
                let loop_term = Term::Loop { term: Box::new((*term).clone()), branch: branch.clone() };
                let ghost before = self.continuation_stack@;
                self.continuation_stack.push((branch, loop_term));
                proof {
                    assert(continuations_view(self.continuation_stack@) =~= continuations_view(
                        before,
                    ).push((branch@, loop_term@)));
                }
                self.expression = *term;
                StepResult::Continue
            },
            Term::Special(special) => self.special_step(special),
        }
    }

    /// Performs transition steps until the machine stops or fails; with `trace`, the state
    /// before each step is recorded.
    fn run(&mut self, trace: bool) -> (r: StepResult)
        ensures
            spec_run(old(self)@) == Some((final(self)@, r)),
            final(self).recorded() == old(self).recorded() + if trace {
                spec_run_trace(old(self)@)
            } else {
                Seq::<SpecState>::empty()
            },
    {
        let ghost goal = spec_run(self@);
        let ghost recorded = self.recorded() + if trace {
            spec_run_trace(self@)
        } else {
            Seq::<SpecState>::empty()
        };
        loop
            invariant
                self.wf(),
                goal == spec_run(old(self)@),
                goal is Some,
                spec_run(self@) == goal,
                trace ==> spec_traceable(self@),
                recorded == old(self).recorded() + if trace {
                    spec_run_trace(old(self)@)
                } else {
                    Seq::<SpecState>::empty()
                },
                recorded == self.recorded() + if trace {
                    spec_run_trace(self@)
                } else {
                    Seq::<SpecState>::empty()
                },
            decreases u32::MAX - self.steps,
        {
            let ghost before = self@;
            let ghost before_recorded = self.recorded();
            if trace {
                let state = self.get_state();
                self.trace.push(state);
                proof {
                    assert(self.recorded() =~= before_recorded.push(spec_state(before)));
                }
            }
            let result = self.step();
            proof {
                if trace {
                    assert(spec_run_trace(before) == seq![spec_state(before)] + if result
                        == StepResult::Continue && self@.steps > before.steps {
                        spec_run_trace(self@)
                    } else {
                        Seq::<SpecState>::empty()
                    });
                }
            }
            if result != StepResult::Continue {
                proof {
                    if trace {
                        assert(recorded =~= self.recorded());
                    } else {
                        assert(recorded =~= self.recorded());
                    }
                }
                return result;
            }
            proof {
                assert(spec_run(before) == spec_run(self@));
                if trace {
                    assert(recorded =~= self.recorded() + spec_run_trace(self@));
                }
            }
        }
    }
}

} // verus!
