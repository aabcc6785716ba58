use vstd::prelude::*;

use crate::fmc_core::choice::SpecChoice;
use crate::fmc_core::location::SpecLocation;
use crate::fmc_core::render::{spec_choice_text, spec_renderable, spec_term_text};
use crate::fmc_core::term::SpecTerm;
use crate::interpreter::lexer::chars_of;
use crate::machines::machine::StepResult;
use crate::machines::semantics::{spec_draw, spec_step, SpecMachine};
use crate::text::{owned, push_char, push_text};

verus! {

/// The state of the machine as text, as a trace shows it: the stacks of the cells, of the
/// locals and of the other named stacks by name, the main stack, the term being run and the
/// continuations.
pub struct SpecState {
    pub cells: Map<Seq<char>, Seq<char>>,
    pub locals: Map<Seq<char>, Seq<char>>,
    pub stacks: Map<Seq<char>, Seq<char>>,
    pub main_stack: Seq<char>,
    pub expression: Seq<char>,
    pub continuation_stack: Seq<char>,
}

/// The terms of a stack, bottom first, each after a `•`.
pub open spec fn spec_items_text(s: Seq<SpecTerm>) -> Seq<char>
    decreases s.len(),
{
    if s.len() == 0 {
        Seq::empty()
    } else {
        spec_items_text(s.drop_last()) + "•"@ + spec_term_text(s.last(), 0)
    }
}

/// The text of the stack of a named location: `ε`, the name, then its terms.
pub open spec fn spec_named_stack_text(name: Seq<char>, s: Seq<SpecTerm>) -> Seq<char> {
    "ε"@ + name + spec_items_text(s)
}

/// The stacks of the locations of one kind (0 cells, 1 locals, 2 other named stacks) as
/// text, by name.
pub open spec fn spec_named_stacks_text(memory: Map<SpecLocation, Seq<SpecTerm>>, kind: nat) -> Map<
    Seq<char>,
    Seq<char>,
> {
    Map::new(
        |name: Seq<char>| memory.contains_key(spec_named_location(kind, name)),
        |name: Seq<char>|
            spec_named_stack_text(name, memory[spec_named_location(kind, name)]),
    )
}

/// The location of one kind with the given name.
pub open spec fn spec_named_location(kind: nat, name: Seq<char>) -> SpecLocation {
    if kind == 0 {
        SpecLocation::Cell(name)
    } else if kind == 1 {
        SpecLocation::Local(name)
    } else {
        SpecLocation::Stack(name)
    }
}

/// The text of the main stack: `ελ` and its terms.
pub open spec fn spec_main_text(memory: Map<SpecLocation, Seq<SpecTerm>>) -> Seq<char> {
    if memory.contains_key(SpecLocation::Main) {
        "ελ"@ + spec_items_text(memory[SpecLocation::Main])
    } else {
        "ελ"@
    }
}

/// The continuations as text, the top one first, ending with `ε`.
pub open spec fn spec_continuations_text(cs: Seq<(SpecChoice, SpecTerm)>) -> Seq<char>
    decreases cs.len(),
{
    if cs.len() == 0 {
        "ε"@
    } else {
        "("@ + spec_choice_text(cs.last().0) + "→"@ + spec_term_text(cs.last().1, 0) + ")"@
            + spec_continuations_text(cs.drop_last())
    }
}

/// The state of a machine as a trace shows it.
pub open spec fn spec_state(m: SpecMachine) -> SpecState {
    SpecState {
        cells: spec_named_stacks_text(m.memory, 0),
        locals: spec_named_stacks_text(m.memory, 1),
        stacks: spec_named_stacks_text(m.memory, 2),
        main_stack: spec_main_text(m.memory),
        expression: spec_term_text(m.expression, 0),
        continuation_stack: spec_continuations_text(m.continuations),
    }
}

/// Whether a location's stack is shown in a trace.
pub open spec fn spec_shown(l: SpecLocation) -> bool {
    match l {
        SpecLocation::Cell(_) | SpecLocation::Local(_) | SpecLocation::Stack(_)
        | SpecLocation::Main => true,
        _ => false,
    }
}

/// Whether every term a trace shows of the machine can be rendered.
pub open spec fn spec_state_renderable(m: SpecMachine) -> bool {
    &&& spec_renderable(m.expression)
    &&& forall|i: int| 0 <= i < m.continuations.len() ==> spec_renderable(#[trigger] m.continuations[i].1)
    &&& forall|l: SpecLocation, i: int|
        spec_shown(l) && m.memory.contains_key(l) && 0 <= i < m.memory[l].len() ==> spec_renderable(
            #[trigger] m.memory[l][i],
        )
}

/// The map of an association list of texts: a later entry for a name replaces an earlier
/// one.
pub open spec fn text_map(v: Seq<(String, String)>) -> Map<Seq<char>, Seq<char>>
    decreases v.len(),
{
    if v.len() == 0 {
        Map::empty()
    } else {
        text_map(v.drop_last()).insert(v.last().0@, v.last().1@)
    }
}

/// The state of the machine as text.
pub struct MachineState {
    pub cells: Vec<(String, String)>,
    pub locals: Vec<(String, String)>,
    pub stacks: Vec<(String, String)>,
    pub main_stack: String,
    pub expression: String,
    pub continuation_stack: String,
}

impl View for MachineState {
    type V = SpecState;

    open spec fn view(&self) -> SpecState {
        SpecState {
            cells: text_map(self.cells@),
            locals: text_map(self.locals@),
            stacks: text_map(self.stacks@),
            main_stack: self.main_stack@,
            expression: self.expression@,
            continuation_stack: self.continuation_stack@,
        }
    }
}

/// The values of the states of a trace.
pub open spec fn states_view(v: Seq<MachineState>) -> Seq<SpecState> {
    Seq::new(v.len(), |i: int| v[i]@)
}

/// Lexicographic order on texts, character by character (the order of Rust's `String`).
pub open spec fn spec_text_less(a: Seq<char>, b: Seq<char>) -> bool
    decreases a.len(),
{
    if a.len() == 0 {
        b.len() > 0
    } else if b.len() == 0 {
        false
    } else if a[0] != b[0] {
        a[0] < b[0]
    } else {
        spec_text_less(a.drop_first(), b.drop_first())
    }
}

/// Of two different texts, one comes before the other.
pub proof fn lemma_text_less_total(a: Seq<char>, b: Seq<char>)
    requires
        a != b,
    ensures
        spec_text_less(a, b) || spec_text_less(b, a),
    decreases a.len(),
{
    if a.len() > 0 && b.len() > 0 && a[0] == b[0] {
        if a.drop_first() == b.drop_first() {
            assert(a =~= seq![a[0]] + a.drop_first());
            assert(b =~= seq![b[0]] + b.drop_first());
        }
        lemma_text_less_total(a.drop_first(), b.drop_first());
    } else if a.len() == 0 && b.len() == 0 {
        assert(a =~= b);
    }
}

/// Whether a list of names is in strictly ascending order.
pub open spec fn spec_ascending(v: Seq<Seq<char>>) -> bool {
    forall|i: int| 0 <= i < v.len() - 1 ==> spec_text_less(#[trigger] v[i], v[i + 1])
}

/// Whether `a` comes before `b` (`String`'s order).
pub fn text_less(a: &str, b: &str) -> (r: bool)
    ensures
        r == spec_text_less(a@, b@),
{
    let x = chars_of(a);
    let y = chars_of(b);
    let mut i: usize = 0;
    proof {
        assert(x@.skip(0) =~= x@);
        assert(y@.skip(0) =~= y@);
    }
    while i < x.len() && i < y.len() && x[i] == y[i]
        invariant
            i <= x.len(),
            i <= y.len(),
            spec_text_less(a@, b@) == spec_text_less(x@.skip(i as int), y@.skip(i as int)),
        decreases x.len() - i,
    {
        proof {
            assert(x@.skip(i as int).drop_first() =~= x@.skip(i + 1));
            assert(y@.skip(i as int).drop_first() =~= y@.skip(i + 1));
        }
        i = i + 1;
    }
    if i == x.len() {
        i < y.len()
    } else if i == y.len() {
        false
    } else {
        x[i] < y[i]
    }
}

/// The number of characters of a text.
pub fn text_width(s: &str) -> (r: usize)
    ensures
        r == s@.len(),
{
    chars_of(s).len()
}

/// `s` followed by spaces up to `width` characters.
pub open spec fn spec_pad_right(s: Seq<char>, width: nat) -> Seq<char> {
    if s.len() < width {
        s + Seq::new((width - s.len()) as nat, |i: int| ' ')
    } else {
        s
    }
}

/// Spaces up to `width` characters, then `s`.
pub open spec fn spec_pad_left(s: Seq<char>, width: nat) -> Seq<char> {
    if s.len() < width {
        Seq::new((width - s.len()) as nat, |i: int| ' ') + s
    } else {
        s
    }
}

/// Appends `count` spaces.
fn push_spaces(out: &mut String, count: usize)
    ensures
        final(out)@ == old(out)@ + Seq::new(count as nat, |i: int| ' '),
{
    let mut k: usize = 0;
    while k < count
        invariant
            k <= count,
            out@ == old(out)@ + Seq::new(k as nat, |i: int| ' '),
        decreases count - k,
    {
        push_char(out, ' ');
        k = k + 1;
        assert(out@ =~= old(out)@ + Seq::new(k as nat, |i: int| ' '));
    }
}

/// Appends a text padded with spaces on the right (`{:<width$}`) or on the left
/// (`{:>width$}`) to `width` characters.
fn push_padded(out: &mut String, s: &str, width: usize, left: bool)
    ensures
        final(out)@ == old(out)@ + if left {
            spec_pad_left(s@, width as nat)
        } else {
            spec_pad_right(s@, width as nat)
        },
{
    let len = text_width(s);
    if len < width {
        if left {
            push_spaces(out, width - len);
            push_text(out, s);
        } else {
            push_text(out, s);
            push_spaces(out, width - len);
        }
    } else {
        push_text(out, s);
    }
    assert(out@ =~= old(out)@ + if left {
        spec_pad_left(s@, width as nat)
    } else {
        spec_pad_right(s@, width as nat)
    });
}

/// The named stacks of one kind (0 cells, 1 locals, 2 other named stacks) in a state.
pub open spec fn spec_kind(s: SpecState, kind: nat) -> Map<Seq<char>, Seq<char>> {
    if kind == 0 {
        s.cells
    } else if kind == 1 {
        s.locals
    } else {
        s.stacks
    }
}

/// What a trace shows for a named stack that a state does not hold.
pub open spec fn spec_missing_text(name: Seq<char>, kind: nat) -> Seq<char> {
    if kind < 2 {
        "ε"@ + name + "•0"@
    } else {
        "ε"@ + name
    }
}

/// The names of the stacks of a kind that any state of a trace holds.
pub open spec fn spec_column_names(states: Seq<SpecState>, kind: nat) -> Set<Seq<char>> {
    Set::new(
        |name: Seq<char>|
            exists|i: int| 0 <= i < states.len() && spec_kind(states[i], kind).contains_key(name),
    )
}

/// The width of the column of a named stack: its widest text in the trace, and for cells
/// and locals at least the width of the text shown where it is missing.
pub open spec fn spec_column_width(states: Seq<SpecState>, kind: nat, name: Seq<char>) -> nat
    decreases states.len(),
{
    if states.len() == 0 {
        if kind < 2 {
            spec_missing_text(name, kind).len()
        } else {
            0
        }
    } else {
        let w = spec_column_width(states.drop_last(), kind, name);
        let m = spec_kind(states.last(), kind);
        if m.contains_key(name) && m[name].len() > w {
            m[name].len()
        } else {
            w
        }
    }
}

/// The widest main stack (field 0), term (1) or continuations (2) of a trace.
pub open spec fn spec_field_width(states: Seq<SpecState>, field: nat) -> nat
    decreases states.len(),
{
    if states.len() == 0 {
        0
    } else {
        let w = spec_field_width(states.drop_last(), field);
        let s = states.last();
        let text = if field == 0 {
            s.main_stack
        } else if field == 1 {
            s.expression
        } else {
            s.continuation_stack
        };
        if text.len() > w {
            text.len()
        } else {
            w
        }
    }
}

/// The columns of one kind of a line of the trace, each ` text ;` padded to its width.
pub open spec fn spec_columns_text(
    states: Seq<SpecState>,
    s: SpecState,
    kind: nat,
    names: Seq<Seq<char>>,
) -> Seq<char>
    decreases names.len(),
{
    if names.len() == 0 {
        Seq::empty()
    } else {
        let name = names.last();
        let m = spec_kind(s, kind);
        let text = if m.contains_key(name) {
            m[name]
        } else {
            spec_missing_text(name, kind)
        };
        spec_columns_text(states, s, kind, names.drop_last()) + " "@ + spec_pad_right(
            text,
            spec_column_width(states, kind, name),
        ) + " ;"@
    }
}

/// A line of the trace: the cells, locals and other stacks in the given column order,
/// then the main stack, the term being run and the continuations, all in brackets.
pub open spec fn spec_trace_line(
    states: Seq<SpecState>,
    s: SpecState,
    cells: Seq<Seq<char>>,
    locals: Seq<Seq<char>>,
    stacks: Seq<Seq<char>>,
) -> Seq<char> {
    "("@ + spec_columns_text(states, s, 0, cells) + spec_columns_text(states, s, 1, locals)
        + spec_columns_text(states, s, 2, stacks) + " "@ + spec_pad_right(
        s.main_stack,
        spec_field_width(states, 0),
    ) + " ,"@ + " "@ + spec_pad_left(s.expression, spec_field_width(states, 1)) + " ,"@ + " "@
        + spec_pad_left(s.continuation_stack, spec_field_width(states, 2)) + " )"@
}

/// Whether the lines are the table of the trace: one line per state, with a column for
/// each named stack of each kind that any state holds, in ascending order of name.
pub open spec fn spec_table_of(states: Seq<SpecState>, lines: Seq<Seq<char>>) -> bool {
    exists|cells: Seq<Seq<char>>, locals: Seq<Seq<char>>, stacks: Seq<Seq<char>>|
        {
            &&& spec_columns_of(states, 0, cells)
            &&& spec_columns_of(states, 1, locals)
            &&& spec_columns_of(states, 2, stacks)
            &&& lines == Seq::new(
                states.len(),
                |i: int| spec_trace_line(states, states[i], cells, locals, stacks),
            )
        }
}

/// Whether `names` lists, in ascending order, the named stacks of a kind that any state
/// of the trace holds.
pub open spec fn spec_columns_of(states: Seq<SpecState>, kind: nat, names: Seq<Seq<char>>) -> bool {
    &&& spec_ascending(names)
    &&& forall|x: Seq<char>| names.contains(x) <==> spec_column_names(states, kind).contains(x)
}

/// The table of a trace: the column order of each kind of named stack, and one line per
/// state.
pub struct TraceTable {
    pub cells: Vec<String>,
    pub locals: Vec<String>,
    pub stacks: Vec<String>,
    pub lines: Vec<String>,
}

/// The entry found last for a name gives the name's text.
proof fn lemma_text_map_at(v: Seq<(String, String)>, j: int)
    requires
        0 <= j < v.len(),
        forall|k: int| j < k < v.len() ==> v[k].0@ != v[j].0@,
    ensures
        text_map(v).contains_key(v[j].0@),
        text_map(v)[v[j].0@] == v[j].1@,
    decreases v.len(),
{
    if j < v.len() - 1 {
        lemma_text_map_at(v.drop_last(), j);
    }
}

/// A name without an entry has no text.
proof fn lemma_text_map_absent(v: Seq<(String, String)>, name: Seq<char>)
    requires
        forall|k: int| 0 <= k < v.len() ==> v[k].0@ != name,
    ensures
        !text_map(v).contains_key(name),
    decreases v.len(),
{
    if v.len() > 0 {
        lemma_text_map_absent(v.drop_last(), name);
    }
}

/// A name has a text exactly when some entry has it.
proof fn lemma_text_map_domain(v: Seq<(String, String)>, name: Seq<char>)
    ensures
        text_map(v).contains_key(name) <==> exists|k: int| 0 <= k < v.len() && v[k].0@ == name,
    decreases v.len(),
{
    if v.len() > 0 {
        lemma_text_map_domain(v.drop_last(), name);
        if exists|k: int| 0 <= k < v.len() && v[k].0@ == name {
            let k = choose|k: int| 0 <= k < v.len() && v[k].0@ == name;
            if k < v.len() - 1 {
                assert(v.drop_last()[k].0@ == name);
            }
        }
        if text_map(v.drop_last()).contains_key(name) {
            let k = choose|k: int| 0 <= k < v.len() - 1 && v.drop_last()[k].0@ == name;
            assert(v[k].0@ == name);
        }
    }
}

/// The text of a name in an association list, the last entry for it winning.
fn text_lookup<'a>(v: &'a Vec<(String, String)>, name: &str) -> (r: Option<&'a String>)
    ensures
        match r {
            Some(t) => text_map(v@).contains_key(name@) && t@ == text_map(v@)[name@],
            None => !text_map(v@).contains_key(name@),
        },
{
    let mut i = v.len();
    while i > 0
        invariant
            i <= v.len(),
            forall|k: int| i <= k < v.len() ==> v@[k].0@ != name@,
        decreases i,
    {
        i = i - 1;
        if crate::text::text_eq(v[i].0.as_str(), name) {
            proof {
                lemma_text_map_at(v@, i as int);
            }
            return Some(&v[i].1);
        }
    }
    proof {
        lemma_text_map_absent(v@, name@);
    }
    None
}

/// Adds a name to a list of names in ascending order, unless it is there already.
fn insert_sorted(names: &mut Vec<String>, name: &str)
    requires
        spec_ascending(old(names).deep_view()),
    ensures
        spec_ascending(final(names).deep_view()),
        forall|x: Seq<char>|
            final(names).deep_view().contains(x) <==> (old(names).deep_view().contains(x) || x
                == name@),
{
    let ghost before = names.deep_view();
    let mut j: usize = 0;
    while j < names.len() && text_less(names[j].as_str(), name)
        invariant
            j <= names.len(),
            names.deep_view() == before,
            forall|k: int| 0 <= k < j ==> spec_text_less(#[trigger] before[k], name@),
        decreases names.len() - j,
    {
        j = j + 1;
    }
    if j < names.len() && crate::text::text_eq(names[j].as_str(), name) {
        assert(before.contains(name@)) by {
            assert(before[j as int] == name@);
        }
        return ;
    }
    proof {
        if j < names.len() {
            lemma_text_less_total(before[j as int], name@);
        }
    }
    names.insert(j, owned(name));
    let ghost after = names.deep_view();
    proof {
        assert(after =~= before.insert(j as int, name@));
        assert forall|i: int| 0 <= i < after.len() - 1 implies spec_text_less(
            #[trigger] after[i],
            after[i + 1],
        ) by {
            if i < j - 1 {
                assert(after[i] == before[i] && after[i + 1] == before[i + 1]);
            } else if i == j - 1 {
                assert(after[i] == before[i] && after[i + 1] == name@);
            } else if i == j {
                assert(after[i] == name@ && after[i + 1] == before[j as int]);
            } else {
                assert(after[i] == before[i - 1] && after[i + 1] == before[i as int]);
            }
        }
        assert forall|x: Seq<char>| after.contains(x) <==> (before.contains(x) || x == name@) by {
            if after.contains(x) {
                let k = choose|k: int| 0 <= k < after.len() && after[k] == x;
                if k < j {
                    assert(before[k] == x);
                } else if k > j {
                    assert(before[k - 1] == x);
                }
            }
            if before.contains(x) {
                let k = choose|k: int| 0 <= k < before.len() && before[k] == x;
                if k < j {
                    assert(after[k] == x);
                } else {
                    assert(after[k + 1] == x);
                }
            }
            if x == name@ {
                assert(after[j as int] == x);
            }
        }
    }
}

/// The entries of the named stacks of one kind in a state.
fn kind_entries(s: &MachineState, kind: u8) -> (r: &Vec<(String, String)>)
    ensures
        text_map(r@) == spec_kind(s@, kind as nat),
{
    if kind == 0 {
        &s.cells
    } else if kind == 1 {
        &s.locals
    } else {
        &s.stacks
    }
}

/// What a trace shows for a named stack that a state does not hold.
fn missing_text(name: &str, kind: u8) -> (r: String)
    ensures
        r@ == spec_missing_text(name@, kind as nat),
{
    let mut text = owned("ε");
    push_text(&mut text, name);
    if kind < 2 {
        push_text(&mut text, "•0");
    }
    text
}

/// The names of the stacks of a kind that any state of the trace holds, in ascending order.
fn column_names(states: &Vec<MachineState>, kind: u8) -> (r: Vec<String>)
    ensures
        spec_ascending(r.deep_view()),
        forall|x: Seq<char>|
            r.deep_view().contains(x) <==> spec_column_names(
                states_view(states@),
                kind as nat,
            ).contains(x),
{
    let ghost sv = states_view(states@);
    let mut names: Vec<String> = Vec::new();
    let mut i: usize = 0;
    while i < states.len()
        invariant
            i <= states.len(),
            sv == states_view(states@),
            spec_ascending(names.deep_view()),
            forall|x: Seq<char>|
                names.deep_view().contains(x) <==> exists|j: int|
                    0 <= j < i && spec_kind(sv[j], kind as nat).contains_key(x),
        decreases states.len() - i,
    {
        let entries = kind_entries(&states[i], kind);
        let ghost m = spec_kind(sv[i as int], kind as nat);
        let mut k: usize = 0;
        while k < entries.len()
            invariant
                k <= entries.len(),
                i < states.len(),
                sv == states_view(states@),
                text_map(entries@) == m,
                m == spec_kind(sv[i as int], kind as nat),
                spec_ascending(names.deep_view()),
                forall|x: Seq<char>|
                    names.deep_view().contains(x) <==> ((exists|j: int|
                        0 <= j < i && spec_kind(sv[j], kind as nat).contains_key(x)) || exists|
                        e: int,
                    | 0 <= e < k && entries@[e].0@ == x),
            decreases entries.len() - k,
        {
            insert_sorted(&mut names, entries[k].0.as_str());
            k = k + 1;
            assert forall|x: Seq<char>|
                names.deep_view().contains(x) <==> ((exists|j: int|
                    0 <= j < i && spec_kind(sv[j], kind as nat).contains_key(x)) || exists|e: int|
                    0 <= e < k && entries@[e].0@ == x) by {
                if x == entries@[k - 1].0@ {
                    assert(0 <= k - 1 < k && entries@[k - 1].0@ == x);
                }
                if exists|e: int| 0 <= e < k && entries@[e].0@ == x {
                    let e = choose|e: int| 0 <= e < k && entries@[e].0@ == x;
                    if e < k - 1 {
                        assert(0 <= e < k - 1 && entries@[e].0@ == x);
                    }
                }
            }
        }
        i = i + 1;
        assert forall|x: Seq<char>|
            names.deep_view().contains(x) <==> exists|j: int|
                0 <= j < i && spec_kind(sv[j], kind as nat).contains_key(x) by {
            lemma_text_map_domain(entries@, x);
            if exists|j: int| 0 <= j < i && spec_kind(sv[j], kind as nat).contains_key(x) {
                let j = choose|j: int| 0 <= j < i && spec_kind(sv[j], kind as nat).contains_key(x);
                if j < i - 1 {
                    assert(0 <= j < i - 1 && spec_kind(sv[j], kind as nat).contains_key(x));
                }
            }
            if exists|e: int| 0 <= e < entries.len() && entries@[e].0@ == x {
                assert(spec_kind(sv[i - 1], kind as nat).contains_key(x));
            }
        }
    }
    names
}

/// The width of the column of a named stack.
fn column_width(states: &Vec<MachineState>, kind: u8, name: &str) -> (w: usize)
    ensures
        w == spec_column_width(states_view(states@), kind as nat, name@),
{
    let ghost sv = states_view(states@);
    let mut w: usize = if kind < 2 {
        text_width(missing_text(name, kind).as_str())
    } else {
        0
    };
    let mut i: usize = 0;
    proof {
        assert(sv.subrange(0, 0).len() == 0);
    }
    while i < states.len()
        invariant
            i <= states.len(),
            sv == states_view(states@),
            w == spec_column_width(sv.subrange(0, i as int), kind as nat, name@),
        decreases states.len() - i,
    {
        proof {
            assert(sv.subrange(0, i + 1).drop_last() =~= sv.subrange(0, i as int));
            assert(sv.subrange(0, i + 1).last() == sv[i as int]);
        }
        match text_lookup(kind_entries(&states[i], kind), name) {
            Some(text) => {
                let len = text_width(text.as_str());
                if len > w {
                    w = len;
                }
            },
            None => {},
        }
        i = i + 1;
    }
    proof {
        assert(sv.subrange(0, states.len() as int) =~= sv);
    }
    w
}

/// The text of one of the unnamed fields of a state: the main stack (0), the term (1) or
/// the continuations (2).
fn field_text(s: &MachineState, field: u8) -> (r: &String)
    ensures
        r@ == if field == 0 {
            s@.main_stack
        } else if field == 1 {
            s@.expression
        } else {
            s@.continuation_stack
        },
{
    if field == 0 {
        &s.main_stack
    } else if field == 1 {
        &s.expression
    } else {
        &s.continuation_stack
    }
}

/// The widest main stack, term or continuations of a trace.
fn field_width(states: &Vec<MachineState>, field: u8) -> (w: usize)
    ensures
        w == spec_field_width(states_view(states@), field as nat),
{
    let ghost sv = states_view(states@);
    let mut w: usize = 0;
    let mut i: usize = 0;
    while i < states.len()
        invariant
            i <= states.len(),
            sv == states_view(states@),
            w == spec_field_width(sv.subrange(0, i as int), field as nat),
        decreases states.len() - i,
    {
        proof {
            assert(sv.subrange(0, i + 1).drop_last() =~= sv.subrange(0, i as int));
            assert(sv.subrange(0, i + 1).last() == sv[i as int]);
        }
        let len = text_width(field_text(&states[i], field).as_str());
        if len > w {
            w = len;
        }
        i = i + 1;
    }
    proof {
        assert(sv.subrange(0, states.len() as int) =~= sv);
    }
    w
}

/// Appends the columns of one kind of a line of the trace.
fn push_columns(
    out: &mut String,
    states: &Vec<MachineState>,
    i: usize,
    kind: u8,
    names: &Vec<String>,
    widths: &Vec<usize>,
)
    requires
        i < states.len(),
        widths.len() == names.len(),
        forall|j: int|
            0 <= j < names.len() ==> widths@[j] == spec_column_width(
                states_view(states@),
                kind as nat,
                #[trigger] names@[j]@,
            ),
    ensures
        final(out)@ == old(out)@ + spec_columns_text(
            states_view(states@),
            states_view(states@)[i as int],
            kind as nat,
            names.deep_view(),
        ),
{
    let ghost sv = states_view(states@);
    let ghost all = names.deep_view();
    let mut j: usize = 0;
    proof {
        assert(all.subrange(0, 0) =~= Seq::<Seq<char>>::empty());
        assert(out@ =~= old(out)@ + spec_columns_text(sv, sv[i as int], kind as nat, all.subrange(0, 0)));
    }
    while j < names.len()
        invariant
            j <= names.len(),
            i < states.len(),
            sv == states_view(states@),
            all == names.deep_view(),
            widths.len() == names.len(),
            forall|k: int|
                0 <= k < names.len() ==> widths@[k] == spec_column_width(
                    sv,
                    kind as nat,
                    #[trigger] names@[k]@,
                ),
            out@ == old(out)@ + spec_columns_text(sv, sv[i as int], kind as nat, all.subrange(0, j as int)),
        decreases names.len() - j,
    {
        proof {
            assert(all.subrange(0, j + 1).drop_last() =~= all.subrange(0, j as int));
            assert(all.subrange(0, j + 1).last() == names@[j as int]@);
        }
        let name = names[j].as_str();
        push_text(out, " ");
        match text_lookup(kind_entries(&states[i], kind), name) {
            Some(text) => push_padded(out, text.as_str(), widths[j], false),
            None => push_padded(out, missing_text(name, kind).as_str(), widths[j], false),
        }
        push_text(out, " ;");
        j = j + 1;
        proof {
            assert(out@ =~= old(out)@ + spec_columns_text(
                sv,
                sv[i - 0],
                kind as nat,
                all.subrange(0, j as int),
            ));
        }
    }
    proof {
        assert(all.subrange(0, names.len() as int) =~= all);
    }
}

/// The widths of the columns of a kind.
fn column_widths(states: &Vec<MachineState>, kind: u8, names: &Vec<String>) -> (r: Vec<usize>)
    ensures
        r.len() == names.len(),
        forall|j: int|
            0 <= j < names.len() ==> r@[j] == spec_column_width(
                states_view(states@),
                kind as nat,
                #[trigger] names@[j]@,
            ),
{
    let mut widths: Vec<usize> = Vec::new();
    let mut j: usize = 0;
    while j < names.len()
        invariant
            j <= names.len(),
            widths.len() == j,
            forall|k: int|
                0 <= k < j ==> widths@[k] == spec_column_width(
                    states_view(states@),
                    kind as nat,
                    #[trigger] names@[k]@,
                ),
        decreases names.len() - j,
    {
        widths.push(column_width(states, kind, names[j].as_str()));
        j = j + 1;
    }
    widths
}

/// Lays a trace out as a table: a column for each cell, local and other named stack that
/// any state holds, in ascending order of name and padded to the widest text (a stack a
/// state does not hold shows as `εname•0`, or `εname` for other stacks), then the main
/// stack, the term being run and the continuations.
pub fn trace_table(states: &Vec<MachineState>) -> (r: TraceTable)
    ensures
        spec_ascending(r.cells.deep_view()),
        spec_ascending(r.locals.deep_view()),
        spec_ascending(r.stacks.deep_view()),
        forall|x: Seq<char>|
            r.cells.deep_view().contains(x) <==> spec_column_names(states_view(states@), 0).contains(x),
        forall|x: Seq<char>|
            r.locals.deep_view().contains(x) <==> spec_column_names(states_view(states@), 1).contains(x),
        forall|x: Seq<char>|
            r.stacks.deep_view().contains(x) <==> spec_column_names(states_view(states@), 2).contains(x),
        r.lines.len() == states.len(),
        forall|i: int|
            0 <= i < states.len() ==> #[trigger] r.lines@[i]@ == spec_trace_line(
                states_view(states@),
                states_view(states@)[i],
                r.cells.deep_view(),
                r.locals.deep_view(),
                r.stacks.deep_view(),
            ),
        spec_table_of(states_view(states@), r.lines.deep_view()),
{
    let ghost sv = states_view(states@);
    let cells = column_names(states, 0);
    let locals = column_names(states, 1);
    let stacks = column_names(states, 2);
    let cell_widths = column_widths(states, 0, &cells);
    let local_widths = column_widths(states, 1, &locals);
    let stack_widths = column_widths(states, 2, &stacks);
    let main_width = field_width(states, 0);
    let expression_width = field_width(states, 1);
    let continuation_width = field_width(states, 2);
    let mut lines: Vec<String> = Vec::new();
    let mut i: usize = 0;
    while i < states.len()
        invariant
            i <= states.len(),
            sv == states_view(states@),
            lines.len() == i,
            cell_widths.len() == cells.len(),
            local_widths.len() == locals.len(),
            stack_widths.len() == stacks.len(),
            forall|j: int|
                0 <= j < cells.len() ==> cell_widths@[j] == spec_column_width(sv, 0, #[trigger] cells@[j]@),
            forall|j: int|
                0 <= j < locals.len() ==> local_widths@[j] == spec_column_width(sv, 1, #[trigger] locals@[j]@),
            forall|j: int|
                0 <= j < stacks.len() ==> stack_widths@[j] == spec_column_width(sv, 2, #[trigger] stacks@[j]@),
            main_width == spec_field_width(sv, 0),
            expression_width == spec_field_width(sv, 1),
            continuation_width == spec_field_width(sv, 2),
            forall|k: int|
                0 <= k < i ==> #[trigger] lines@[k]@ == spec_trace_line(
                    sv,
                    sv[k],
                    cells.deep_view(),
                    locals.deep_view(),
                    stacks.deep_view(),
                ),
        decreases states.len() - i,
    {
        let mut line = owned("(");
        push_columns(&mut line, states, i, 0, &cells, &cell_widths);
        push_columns(&mut line, states, i, 1, &locals, &local_widths);
        push_columns(&mut line, states, i, 2, &stacks, &stack_widths);
        push_text(&mut line, " ");
        push_padded(&mut line, states[i].main_stack.as_str(), main_width, false);
        push_text(&mut line, " ,");
        push_text(&mut line, " ");
        push_padded(&mut line, states[i].expression.as_str(), expression_width, true);
        push_text(&mut line, " ,");
        push_text(&mut line, " ");
        push_padded(&mut line, states[i].continuation_stack.as_str(), continuation_width, true);
        push_text(&mut line, " )");
        proof {
            assert(line@ =~= spec_trace_line(
                sv,
                sv[i as int],
                cells.deep_view(),
                locals.deep_view(),
                stacks.deep_view(),
            ));
        }
        lines.push(line);
        i = i + 1;
    }
    proof {
        assert(spec_columns_of(sv, 0, cells.deep_view()));
        assert(spec_columns_of(sv, 1, locals.deep_view()));
        assert(spec_columns_of(sv, 2, stacks.deep_view()));
        assert(lines.deep_view() =~= Seq::new(
            sv.len(),
            |k: int| spec_trace_line(sv, sv[k], cells.deep_view(), locals.deep_view(), stacks.deep_view()),
        ));
    }
    TraceTable { cells, locals, stacks, lines }
}

/// Whether every state that running the machine passes through can be shown in a trace.
pub open spec fn spec_traceable(m: SpecMachine) -> bool
    decreases u32::MAX - m.steps,
{
    spec_state_renderable(m) && match spec_step(m) {
        Some((m1, r)) => if r == StepResult::Continue && m1.steps > m.steps {
            spec_traceable(m1)
        } else {
            true
        },
        None => true,
    }
}

/// The states that running the machine passes through, each before its step.
pub open spec fn spec_run_trace(m: SpecMachine) -> Seq<SpecState>
    decreases u32::MAX - m.steps,
{
    seq![spec_state(m)] + match spec_step(m) {
        Some((m1, r)) => if r == StepResult::Continue && m1.steps > m.steps {
            spec_run_trace(m1)
        } else {
            Seq::empty()
        },
        None => Seq::empty(),
    }
}

/// Whether every state that a run drawing random choices from `bits` passes through can be
/// shown in a trace (see `spec_drive`).
pub open spec fn spec_drive_traceable(m: SpecMachine, bits: Seq<bool>) -> bool
    decreases u32::MAX - m.steps,
{
    if m.steps == u32::MAX {
        true
    } else {
        let (m0, rest) = spec_draw(m, bits);
        spec_state_renderable(m0) && match spec_step(m0) {
            Some((m1, r)) => if r == StepResult::Continue && m1.steps > m.steps {
                spec_drive_traceable(m1, rest)
            } else {
                true
            },
            None => true,
        }
    }
}

/// The states that a run drawing random choices from `bits` passes through, each as it is
/// about to step (see `spec_drive`).
pub open spec fn spec_drive_trace(m: SpecMachine, bits: Seq<bool>) -> Seq<SpecState>
    decreases u32::MAX - m.steps,
{
    if m.steps == u32::MAX {
        Seq::empty()
    } else {
        let (m0, rest) = spec_draw(m, bits);
        seq![spec_state(m0)] + match spec_step(m0) {
            Some((m1, r)) => if r == StepResult::Continue && m1.steps > m.steps {
                spec_drive_trace(m1, rest)
            } else {
                Seq::empty()
            },
            None => Seq::empty(),
        }
    }
}

} // verus!
