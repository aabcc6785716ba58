use vstd::prelude::*;

use crate::fmc_core::location::{Location, SpecLocation};
use crate::text::text_eq;

verus! {

/// `s` with `x` added at the end unless it already holds it.
pub open spec fn spec_insert<A>(s: Seq<A>, x: A) -> Seq<A> {
    if s.contains(x) {
        s
    } else {
        s.push(x)
    }
}

/// `s` without any entry equal to `x`, the order of the rest kept.
pub open spec fn spec_remove<A>(s: Seq<A>, x: A) -> Seq<A>
    decreases s.len(),
{
    if s.len() == 0 {
        s
    } else {
        let r = spec_remove(s.drop_last(), x);
        if s.last() == x {
            r
        } else {
            r.push(s.last())
        }
    }
}

/// `acc` with each entry of `s` added in turn unless it is already there.
pub open spec fn spec_merge<A>(acc: Seq<A>, s: Seq<A>) -> Seq<A>
    decreases s.len(),
{
    if s.len() == 0 {
        acc
    } else {
        spec_insert(spec_merge(acc, s.drop_last()), s.last())
    }
}

/// What inserting, removing and merging hold.
pub proof fn lemma_list_contains<A>(acc: Seq<A>, s: Seq<A>, x: A, y: A)
    ensures
        spec_insert(acc, x).contains(y) <==> (acc.contains(y) || y == x),
        spec_remove(s, x).contains(y) <==> (s.contains(y) && y != x),
        spec_merge(acc, s).contains(y) <==> (acc.contains(y) || s.contains(y)),
    decreases s.len(),
{
    if acc.contains(y) {
        let k = choose|k: int| 0 <= k < acc.len() && acc[k] == y;
        assert(acc.push(x)[k] == y);
    }
    if y == x && !acc.contains(x) {
        assert(acc.push(x)[acc.len() as int] == x);
    }
    if acc.push(x).contains(y) {
        let k = choose|k: int| 0 <= k < acc.push(x).len() && acc.push(x)[k] == y;
        if k < acc.len() {
            assert(acc[k] == y);
        }
    }
    if s.len() > 0 {
        let d = s.drop_last();
        lemma_list_contains(acc, d, x, y);
        lemma_list_contains(spec_merge(acc, d), d, s.last(), y);
        let r = spec_remove(d, x);
        if r.push(s.last()).contains(y) {
            let k = choose|k: int| 0 <= k < r.push(s.last()).len() && r.push(s.last())[k] == y;
            if k < r.len() {
                assert(r[k] == y);
            }
        }
        if s.last() == y && y != x {
            assert(r.push(s.last())[r.len() as int] == y);
        }
        if r.contains(y) {
            let k = choose|k: int| 0 <= k < r.len() && r[k] == y;
            assert(r.push(s.last())[k] == y);
        }
        if s.contains(y) {
            let k = choose|k: int| 0 <= k < s.len() && s[k] == y;
            if k < d.len() {
                assert(d[k] == y);
            }
        }
        if d.contains(y) {
            let k = choose|k: int| 0 <= k < d.len() && d[k] == y;
            assert(s[k] == y);
        }
        assert(s[s.len() - 1] == s.last());
    }
}

/// Merging keeps a list free of duplicates.
pub proof fn lemma_merge_no_duplicates<A>(acc: Seq<A>, s: Seq<A>)
    requires
        acc.no_duplicates(),
    ensures
        spec_merge(acc, s).no_duplicates(),
    decreases s.len(),
{
    if s.len() > 0 {
        lemma_merge_no_duplicates(acc, s.drop_last());
        lemma_insert_no_duplicates(spec_merge(acc, s.drop_last()), s.last());
    }
}

/// The values of a list of locations.
pub open spec fn locations_view(v: Seq<Location>) -> Seq<SpecLocation> {
    Seq::new(v.len(), |i: int| v[i]@)
}

/// Whether a list of names holds a name.
pub fn names_contains(v: &Vec<String>, x: &str) -> (r: bool)
    ensures
        r == v.deep_view().contains(x@),
{
    let mut i: usize = 0;
    while i < v.len()
        invariant
            i <= v.len(),
            forall|j: int| 0 <= j < i ==> v.deep_view()[j] != x@,
        decreases v.len() - i,
    {
        if text_eq(v[i].as_str(), x) {
            assert(v.deep_view()[i as int] == x@);
            return true;
        }
        i = i + 1;
    }
    false
}

/// Adds a name to a list of names unless it is already there.
pub fn names_insert(v: &mut Vec<String>, x: String)
    ensures
        final(v).deep_view() == spec_insert(old(v).deep_view(), x@),
{
    if !names_contains(v, x.as_str()) {
        let ghost before = v.deep_view();
        v.push(x);
        assert(v.deep_view() =~= before.push(x@));
    }
}

/// Adds each name of `s`, in turn, to a list of names unless it is already there.
pub fn names_merge(v: &mut Vec<String>, s: &Vec<String>)
    ensures
        final(v).deep_view() == spec_merge(old(v).deep_view(), s.deep_view()),
{
    let ghost start = v.deep_view();
    let mut i: usize = 0;
    assert(s.deep_view().take(0) =~= Seq::<Seq<char>>::empty());
    while i < s.len()
        invariant
            i <= s.len(),
            v.deep_view() == spec_merge(start, s.deep_view().take(i as int)),
        decreases s.len() - i,
    {
        assert(s.deep_view().take(i + 1).drop_last() =~= s.deep_view().take(i as int));
        assert(s.deep_view().take(i + 1).last() == s[i as int]@);
        names_insert(v, s[i].clone());
        i = i + 1;
    }
    assert(s.deep_view().take(s.len() as int) =~= s.deep_view());
}

/// Removes every occurrence of a name from a list of names.
pub fn names_remove(v: &Vec<String>, x: &str) -> (r: Vec<String>)
    ensures
        r.deep_view() == spec_remove(v.deep_view(), x@),
{
    let mut out: Vec<String> = Vec::new();
    let mut i: usize = 0;
    assert(v.deep_view().take(0) =~= Seq::<Seq<char>>::empty());
    assert(out.deep_view() =~= Seq::<Seq<char>>::empty());
    while i < v.len()
        invariant
            i <= v.len(),
            out.deep_view() == spec_remove(v.deep_view().take(i as int), x@),
        decreases v.len() - i,
    {
        let ghost before = out.deep_view();
        assert(v.deep_view().take(i + 1).drop_last() =~= v.deep_view().take(i as int));
        assert(v.deep_view().take(i + 1).last() == v[i as int]@);
        if !text_eq(v[i].as_str(), x) {
            out.push(v[i].clone());
            assert(out.deep_view() =~= before.push(v[i as int]@));
        }
        i = i + 1;
    }
    assert(v.deep_view().take(v.len() as int) =~= v.deep_view());
    out
}

/// Whether a list of locations holds a location.
pub fn locations_contains(v: &Vec<Location>, x: &Location) -> (r: bool)
    ensures
        r == locations_view(v@).contains(x@),
{
    let mut i: usize = 0;
    while i < v.len()
        invariant
            i <= v.len(),
            forall|j: int| 0 <= j < i ==> locations_view(v@)[j] != x@,
        decreases v.len() - i,
    {
        if v[i].same(x) {
            assert(locations_view(v@)[i as int] == x@);
            return true;
        }
        i = i + 1;
    }
    false
}

/// Adds a location to a list of locations unless it is already there.
pub fn locations_insert(v: &mut Vec<Location>, x: Location)
    ensures
        locations_view(final(v)@) == spec_insert(locations_view(old(v)@), x@),
{
    if !locations_contains(v, &x) {
        let ghost before = locations_view(v@);
        v.push(x);
        assert(locations_view(v@) =~= before.push(x@));
    }
}

/// Inserting keeps a list free of duplicates.
pub proof fn lemma_insert_no_duplicates<A>(s: Seq<A>, x: A)
    requires
        s.no_duplicates(),
    ensures
        spec_insert(s, x).no_duplicates(),
        spec_insert(s, x).to_set() == s.to_set().insert(x),
{
    if !s.contains(x) {
        assert forall|i: int, j: int|
            0 <= i < s.push(x).len() && 0 <= j < s.push(x).len() && i != j implies s.push(x)[i]
            != s.push(x)[j] by {
            if i == s.len() as int {
                assert(s[j] == s.push(x)[j]);
            } else if j == s.len() as int {
                assert(s[i] == s.push(x)[i]);
            }
        }
        assert(s.push(x).to_set() =~= s.to_set().insert(x)) by {
            assert forall|y: A| s.push(x).to_set().contains(y) implies s.to_set().insert(
                x,
            ).contains(y) by {
                let k = choose|k: int| 0 <= k < s.push(x).len() && s.push(x)[k] == y;
                if k < s.len() {
                    assert(s[k] == y);
                }
            }
            assert forall|y: A| s.to_set().insert(x).contains(y) implies s.push(
                x,
            ).to_set().contains(y) by {
                if y == x {
                    assert(s.push(x)[s.len() as int] == x);
                } else {
                    let k = choose|k: int| 0 <= k < s.len() && s[k] == y;
                    assert(s.push(x)[k] == y);
                }
            }
        }
    } else {
        assert(s.to_set() =~= s.to_set().insert(x)) by {
            let k = choose|k: int| 0 <= k < s.len() && s[k] == x;
            assert(s.to_set().contains(x));
        }
    }
}

/// Removing keeps a list free of duplicates and takes exactly `x` out of its set.
pub proof fn lemma_remove_no_duplicates<A>(s: Seq<A>, x: A)
    requires
        s.no_duplicates(),
    ensures
        spec_remove(s, x).no_duplicates(),
        spec_remove(s, x).to_set() == s.to_set().remove(x),
    decreases s.len(),
{
    if s.len() > 0 {
        let r = spec_remove(s.drop_last(), x);
        assert(s.drop_last().no_duplicates()) by {
            assert forall|i: int, j: int|
                0 <= i < s.drop_last().len() && 0 <= j < s.drop_last().len() && i != j implies s.drop_last()[i]
                != s.drop_last()[j] by {
                assert(s[i] != s[j]);
            }
        }
        lemma_remove_no_duplicates(s.drop_last(), x);
        assert(s =~= s.drop_last().push(s.last()));
        assert(!s.drop_last().contains(s.last())) by {
            if s.drop_last().contains(s.last()) {
                let k = choose|k: int| 0 <= k < s.drop_last().len() && s.drop_last()[k] == s.last();
                assert(s[k] == s[s.len() - 1]);
            }
        }
        assert(s.to_set() =~= s.drop_last().to_set().insert(s.last())) by {
            assert forall|y: A| s.to_set().contains(y) implies s.drop_last().to_set().insert(
                s.last(),
            ).contains(y) by {
                let k = choose|k: int| 0 <= k < s.len() && s[k] == y;
                if k < s.len() - 1 {
                    assert(s.drop_last()[k] == y);
                }
            }
            assert forall|y: A| s.drop_last().to_set().insert(s.last()).contains(y) implies s.to_set().contains(
                y,
            ) by {
                if y == s.last() {
                    assert(s[s.len() - 1] == y);
                } else {
                    let k = choose|k: int| 0 <= k < s.drop_last().len() && s.drop_last()[k] == y;
                    assert(s[k] == y);
                }
            }
        }
        if s.last() != x {
            assert(!r.contains(s.last())) by {
                if r.contains(s.last()) {
                    assert(r.to_set().contains(s.last()));
                }
            }
            lemma_insert_no_duplicates(r, s.last());
            assert(spec_remove(s, x).to_set() =~= s.to_set().remove(x));
        } else {
            assert(spec_remove(s, x).to_set() =~= s.to_set().remove(x));
        }
    } else {
        assert(s.to_set() =~= Set::<A>::empty());
        assert(spec_remove(s, x).to_set() =~= s.to_set().remove(x));
    }
}

} // verus!
