use vstd::prelude::*;

use crate::fmc_core::location::{Location, SpecLocation};
use crate::fmc_core::term::{option_view, terms_view, SpecTerm, Term};
use crate::text::text_eq;

verus! {

/// The stacks of the machine, one for each location that has been used.
pub struct Stacks {
    entries: Vec<(Location, Vec<Term>)>,
}

/// The stacks of a list of entries, by location.
pub open spec fn stacks_map(entries: Seq<(Location, Vec<Term>)>) -> Map<SpecLocation, Seq<SpecTerm>>
    decreases entries.len(),
{
    if entries.len() == 0 {
        Map::empty()
    } else {
        stacks_map(entries.drop_last()).insert(
            entries.last().0@,
            terms_view(entries.last().1@),
        )
    }
}

/// No location has two entries.
pub open spec fn stacks_distinct(entries: Seq<(Location, Vec<Term>)>) -> bool {
    forall|i: int, j: int|
        0 <= i < j < entries.len() ==> entries[i].0@ != entries[j].0@
}

/// The stack at a location, empty where the location has none yet.
pub open spec fn spec_stack(m: Map<SpecLocation, Seq<SpecTerm>>, l: SpecLocation) -> Seq<SpecTerm> {
    if m.contains_key(l) {
        m[l]
    } else {
        Seq::empty()
    }
}

/// The stacks with a term pushed at a location (its stack created where missing).
pub open spec fn spec_push(m: Map<SpecLocation, Seq<SpecTerm>>, l: SpecLocation, t: SpecTerm) -> Map<
    SpecLocation,
    Seq<SpecTerm>,
> {
    m.insert(l, spec_stack(m, l).push(t))
}

/// The stacks after popping a location (its stack created where missing), and the term
/// popped, if any.
pub open spec fn spec_pop(m: Map<SpecLocation, Seq<SpecTerm>>, l: SpecLocation) -> (
    Map<SpecLocation, Seq<SpecTerm>>,
    Option<SpecTerm>,
) {
    let s = spec_stack(m, l);
    if s.len() == 0 {
        (m.insert(l, s), None)
    } else {
        (m.insert(l, s.drop_last()), Some(s.last()))
    }
}

/// The entry at `i` gives the stack of its location.
pub proof fn lemma_stacks_index(entries: Seq<(Location, Vec<Term>)>, i: int)
    requires
        stacks_distinct(entries),
        0 <= i < entries.len(),
    ensures
        stacks_map(entries).contains_key(entries[i].0@),
        stacks_map(entries)[entries[i].0@] == terms_view(entries[i].1@),
    decreases entries.len(),
{
    if i < entries.len() - 1 {
        lemma_stacks_index(entries.drop_last(), i);
    }
}

/// A location without an entry has no stack.
pub proof fn lemma_stacks_absent(entries: Seq<(Location, Vec<Term>)>, l: SpecLocation)
    requires
        forall|i: int| 0 <= i < entries.len() ==> entries[i].0@ != l,
    ensures
        !stacks_map(entries).contains_key(l),
    decreases entries.len(),
{
    if entries.len() > 0 {
        lemma_stacks_absent(entries.drop_last(), l);
    }
}

/// Replacing the stack of the entry at `i` replaces the stack of its location.
pub proof fn lemma_stacks_update(entries: Seq<(Location, Vec<Term>)>, i: int, stack: Vec<Term>)
    requires
        stacks_distinct(entries),
        0 <= i < entries.len(),
    ensures
        stacks_map(entries.update(i, (entries[i].0, stack))) == stacks_map(entries).insert(
            entries[i].0@,
            terms_view(stack@),
        ),
    decreases entries.len(),
{
    let updated = entries.update(i, (entries[i].0, stack));
    if i == entries.len() - 1 {
        assert(updated.drop_last() =~= entries.drop_last());
        assert(stacks_map(updated) =~= stacks_map(entries).insert(
            entries[i].0@,
            terms_view(stack@),
        ));
    } else {
        lemma_stacks_update(entries.drop_last(), i, stack);
        assert(updated.drop_last() =~= entries.drop_last().update(i, (entries[i].0, stack)));
        assert(stacks_map(updated) =~= stacks_map(entries).insert(
            entries[i].0@,
            terms_view(stack@),
        ));
    }
}

impl View for Stacks {
    type V = Map<SpecLocation, Seq<SpecTerm>>;

    closed spec fn view(&self) -> Map<SpecLocation, Seq<SpecTerm>> {
        stacks_map(self.entries@)
    }
}

impl Stacks {
    /// Whether no location has two entries.
    pub closed spec fn wf(&self) -> bool {
        stacks_distinct(self.entries@)
    }

    /// No stacks at all.
    pub fn new() -> (r: Stacks)
        ensures
            r.wf(),
            r@ == Map::<SpecLocation, Seq<SpecTerm>>::empty(),
    {
        Stacks { entries: Vec::new() }
    }

    /// The position of the entry of a location.
    fn find(&self, l: &Location) -> (r: Option<usize>)
        requires
            self.wf(),
        ensures
            match r {
                Some(i) => i < self.entries.len() && self.entries@[i as int].0@ == l@,
                None => !self@.contains_key(l@),
            },
    {
        let mut i: usize = 0;
        while i < self.entries.len()
            invariant
                i <= self.entries.len(),
                forall|j: int| 0 <= j < i ==> self.entries@[j].0@ != l@,
            decreases self.entries.len() - i,
        {
            if self.entries[i].0.same(l) {
                return Some(i);
            }
            i = i + 1;
        }
        proof {
            lemma_stacks_absent(self.entries@, l@);
        }
        None
    }

    /// Whether a location has a stack.
    pub fn contains(&self, l: &Location) -> (r: bool)
        requires
            self.wf(),
        ensures
            r == self@.contains_key(l@),
    {
        match self.find(l) {
            Some(i) => {
                proof {
                    lemma_stacks_index(self.entries@, i as int);
                }
                true
            },
            None => false,
        }
    }

    /// The stack at a location, if it has one.
    pub fn get(&self, l: &Location) -> (r: Option<&Vec<Term>>)
        requires
            self.wf(),
        ensures
            match r {
                Some(s) => self@.contains_key(l@) && terms_view(s@) == self@[l@],
                None => !self@.contains_key(l@),
            },
    {
        match self.find(l) {
            Some(i) => {
                proof {
                    lemma_stacks_index(self.entries@, i as int);
                }
                Some(&self.entries[i].1)
            },
            None => None,
        }
    }

    /// Replaces the stack at a location (creating the location's entry where missing).
    pub fn set(&mut self, l: Location, stack: Vec<Term>)
        requires
            old(self).wf(),
        ensures
            final(self).wf(),
            final(self)@ == old(self)@.insert(l@, terms_view(stack@)),
    {
        match self.find(&l) {
            Some(i) => {
                let ghost before = self.entries@;
                let entry = self.entries.remove(i);
                self.entries.insert(i, (entry.0, stack));
                proof {
                    assert(self.entries@ =~= before.update(i as int, (before[i as int].0, stack)));
                    lemma_stacks_update(before, i as int, stack);
                }
            },
            None => {
                let ghost before = self.entries@;
                self.entries.push((l, stack));
                proof {
                    assert(self.entries@.drop_last() =~= before);
                    lemma_stacks_absent_all(before, l@);
                }
            },
        }
    }

    /// Pushes a term at a location (creating its stack where missing).
    pub fn push(&mut self, l: Location, t: Term)
        requires
            old(self).wf(),
        ensures
            final(self).wf(),
            final(self)@ == spec_push(old(self)@, l@, t@),
    {
        match self.find(&l) {
            Some(i) => {
                proof {
                    lemma_stacks_index(self.entries@, i as int);
                }
                let ghost before = self.entries@;
                let entry = self.entries.remove(i);
                let mut stack = entry.1;
                let ghost old_stack = stack@;
                stack.push(t);
                proof {
                    assert(terms_view(stack@) =~= terms_view(old_stack).push(t@));
                }
                self.entries.insert(i, (entry.0, stack));
                proof {
                    assert(self.entries@ =~= before.update(i as int, (before[i as int].0, stack)));
                    lemma_stacks_update(before, i as int, stack);
                }
            },
            None => {
                let mut stack = Vec::new();
                stack.push(t);
                proof {
                    assert(terms_view(stack@) =~= Seq::<SpecTerm>::empty().push(t@));
                }
                let ghost before = self.entries@;
                self.entries.push((l, stack));
                proof {
                    assert(self.entries@.drop_last() =~= before);
                    lemma_stacks_absent_all(before, l@);
                }
            },
        }
    }

    /// Pops the stack at a location (creating it, empty, where missing).
    pub fn pop(&mut self, l: &Location) -> (r: Option<Term>)
        requires
            old(self).wf(),
        ensures
            final(self).wf(),
            (final(self)@, option_view(r)) == spec_pop(old(self)@, l@),
    {
        match self.find(l) {
            Some(i) => {
                proof {
                    lemma_stacks_index(self.entries@, i as int);
                }
                let ghost before = self.entries@;
                let entry = self.entries.remove(i);
                let mut stack = entry.1;
                let ghost old_stack = stack@;
                let r = stack.pop();
                proof {
                    if old_stack.len() > 0 {
                        assert(terms_view(stack@) =~= terms_view(old_stack).drop_last());
                    } else {
                        assert(terms_view(stack@) =~= terms_view(old_stack));
                    }
                }
                self.entries.insert(i, (entry.0, stack));
                proof {
                    assert(self.entries@ =~= before.update(i as int, (before[i as int].0, stack)));
                    lemma_stacks_update(before, i as int, stack);
                }
                r
            },
            None => {
                let stack: Vec<Term> = Vec::new();
                proof {
                    assert(terms_view(stack@) =~= Seq::<SpecTerm>::empty());
                }
                let ghost before = self.entries@;
                self.entries.push((l.clone(), stack));
                proof {
                    assert(self.entries@.drop_last() =~= before);
                    lemma_stacks_absent_all(before, l@);
                }
                None
            },
        }
    }

    /// The locations that have stacks, with their stacks, in the order they were created.
    pub fn entries(&self) -> (r: &Vec<(Location, Vec<Term>)>)
        ensures
            stacks_map(r@) == self@,
            self.wf() ==> stacks_distinct(r@),
    {
        &self.entries
    }
}

/// Where no entry has the location, adding one keeps the locations distinct.
proof fn lemma_stacks_absent_all(entries: Seq<(Location, Vec<Term>)>, l: SpecLocation)
    ensures
        stacks_distinct(entries) && !stacks_map(entries).contains_key(l) ==> forall|i: int|
            0 <= i < entries.len() ==> entries[i].0@ != l,
{
    if stacks_distinct(entries) && !stacks_map(entries).contains_key(l) {
        assert forall|i: int| 0 <= i < entries.len() implies entries[i].0@ != l by {
            lemma_stacks_index(entries, i);
        }
    }
}

/// The variables bound by the machine, each to a term.
pub struct Bindings {
    entries: Vec<(String, Term)>,
}

/// The bindings of a list of entries, by name.
pub open spec fn bindings_map(entries: Seq<(String, Term)>) -> Map<Seq<char>, SpecTerm>
    decreases entries.len(),
{
    if entries.len() == 0 {
        Map::empty()
    } else {
        bindings_map(entries.drop_last()).insert(entries.last().0@, entries.last().1@)
    }
}

/// No name has two entries.
pub open spec fn bindings_distinct(entries: Seq<(String, Term)>) -> bool {
    forall|i: int, j: int|
        0 <= i < j < entries.len() ==> entries[i].0@ != entries[j].0@
}

/// The entry at `i` gives the binding of its name.
pub proof fn lemma_bindings_index(entries: Seq<(String, Term)>, i: int)
    requires
        bindings_distinct(entries),
        0 <= i < entries.len(),
    ensures
        bindings_map(entries).contains_key(entries[i].0@),
        bindings_map(entries)[entries[i].0@] == entries[i].1@,
    decreases entries.len(),
{
    if i < entries.len() - 1 {
        lemma_bindings_index(entries.drop_last(), i);
    }
}

/// A name without an entry is unbound.
pub proof fn lemma_bindings_absent(entries: Seq<(String, Term)>, x: Seq<char>)
    requires
        forall|i: int| 0 <= i < entries.len() ==> entries[i].0@ != x,
    ensures
        !bindings_map(entries).contains_key(x),
    decreases entries.len(),
{
    if entries.len() > 0 {
        lemma_bindings_absent(entries.drop_last(), x);
    }
}

/// Replacing the term of the entry at `i` rebinds its name.
pub proof fn lemma_bindings_update(entries: Seq<(String, Term)>, i: int, t: Term)
    requires
        bindings_distinct(entries),
        0 <= i < entries.len(),
    ensures
        bindings_map(entries.update(i, (entries[i].0, t))) == bindings_map(entries).insert(
            entries[i].0@,
            t@,
        ),
    decreases entries.len(),
{
    let updated = entries.update(i, (entries[i].0, t));
    if i == entries.len() - 1 {
        assert(updated.drop_last() =~= entries.drop_last());
        assert(bindings_map(updated) =~= bindings_map(entries).insert(entries[i].0@, t@));
    } else {
        lemma_bindings_update(entries.drop_last(), i, t);
        assert(updated.drop_last() =~= entries.drop_last().update(i, (entries[i].0, t)));
        assert(bindings_map(updated) =~= bindings_map(entries).insert(entries[i].0@, t@));
    }
}

impl View for Bindings {
    type V = Map<Seq<char>, SpecTerm>;

    closed spec fn view(&self) -> Map<Seq<char>, SpecTerm> {
        bindings_map(self.entries@)
    }
}

impl Bindings {
    /// Whether no name has two entries.
    pub closed spec fn wf(&self) -> bool {
        bindings_distinct(self.entries@)
    }

    /// No bindings at all.
    pub fn new() -> (r: Bindings)
        ensures
            r.wf(),
            r@ == Map::<Seq<char>, SpecTerm>::empty(),
    {
        Bindings { entries: Vec::new() }
    }

    /// The position of the entry of a name.
    fn find(&self, x: &str) -> (r: Option<usize>)
        requires
            self.wf(),
        ensures
            match r {
                Some(i) => i < self.entries.len() && self.entries@[i as int].0@ == x@,
                None => !self@.contains_key(x@),
            },
    {
        let mut i: usize = 0;
        while i < self.entries.len()
            invariant
                i <= self.entries.len(),
                forall|j: int| 0 <= j < i ==> self.entries@[j].0@ != x@,
            decreases self.entries.len() - i,
        {
            if text_eq(self.entries[i].0.as_str(), x) {
                return Some(i);
            }
            i = i + 1;
        }
        proof {
            lemma_bindings_absent(self.entries@, x@);
        }
        None
    }

    /// The term bound to a name, if any.
    pub fn get(&self, x: &str) -> (r: Option<&Term>)
        requires
            self.wf(),
        ensures
            match r {
                Some(t) => self@.contains_key(x@) && t@ == self@[x@],
                None => !self@.contains_key(x@),
            },
    {
        match self.find(x) {
            Some(i) => {
                proof {
                    lemma_bindings_index(self.entries@, i as int);
                }
                Some(&self.entries[i].1)
            },
            None => None,
        }
    }

    /// Binds a name to a term, replacing any earlier binding of it.
    pub fn insert(&mut self, x: String, t: Term)
        requires
            old(self).wf(),
        ensures
            final(self).wf(),
            final(self)@ == old(self)@.insert(x@, t@),
    {
        match self.find(x.as_str()) {
            Some(i) => {
                let ghost before = self.entries@;
                let entry = self.entries.remove(i);
                self.entries.insert(i, (entry.0, t));
                proof {
                    assert(self.entries@ =~= before.update(i as int, (before[i as int].0, t)));
                    lemma_bindings_update(before, i as int, t);
                }
            },
            None => {
                let ghost before = self.entries@;
                self.entries.push((x, t));
                proof {
                    assert(self.entries@.drop_last() =~= before);
                    if bindings_distinct(before) {
                        assert forall|i: int| 0 <= i < before.len() implies before[i].0@ != x@ by {
                            lemma_bindings_index(before, i);
                        }
                    }
                }
            },
        }
    }
}

/// Popping a location just pushed gives back the term pushed, and the location's stack
/// as it was before the push.
pub proof fn lemma_pop_after_push(m: Map<SpecLocation, Seq<SpecTerm>>, l: SpecLocation, t: SpecTerm)
    ensures
        spec_pop(spec_push(m, l, t), l) == (m.insert(l, spec_stack(m, l)), Some(t)),
{
    let pushed = spec_push(m, l, t);
    assert(spec_stack(pushed, l) == spec_stack(m, l).push(t));
    assert(spec_stack(m, l).push(t).drop_last() =~= spec_stack(m, l));
    assert(pushed.insert(l, spec_stack(m, l)) =~= m.insert(l, spec_stack(m, l)));
}

} // verus!
