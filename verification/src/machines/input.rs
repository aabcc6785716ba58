use vstd::prelude::*;

use crate::fmc_core::choice::{Choice, Constant, SpecChoice};
use crate::fmc_core::term::{SpecTerm, Term};
use crate::interpreter::lexer::{chars_of, spec_is_digit, spec_is_space, spec_number};

verus! {

/// A text without the white space at either end.
pub open spec fn spec_trim(s: Seq<char>) -> Seq<char>
    decreases s.len(),
{
    if s.len() > 0 && spec_is_space(s[0]) {
        spec_trim(s.drop_first())
    } else if s.len() > 0 && spec_is_space(s.last()) {
        spec_trim(s.drop_last())
    } else {
        s
    }
}

/// Whether a text is a non-empty run of decimal digits.
pub open spec fn spec_all_digits(d: Seq<char>) -> bool {
    d.len() > 0 && forall|i: int| 0 <= i < d.len() ==> spec_is_digit(#[trigger] d[i])
}

/// The integer a text writes in decimal, with an optional leading `-`.
pub open spec fn spec_integer_text(t: Seq<char>) -> Option<int> {
    if t.len() > 0 && t[0] == '-' && spec_all_digits(t.drop_first()) {
        Some(-spec_number(t.drop_first()))
    } else if spec_all_digits(t) {
        Some(spec_number(t))
    } else {
        None
    }
}

/// The value a line of input stands for: `true`, `false`, or an integer that fits in an
/// `i32`, white space around it ignored; `None` for anything else.
pub open spec fn spec_input_term(line: Seq<char>) -> Option<SpecTerm> {
    let t = spec_trim(line);
    if t == "true"@ {
        Some(SpecTerm::Choice(SpecChoice::Constant(Constant::Boolean(true))))
    } else if t == "false"@ {
        Some(SpecTerm::Choice(SpecChoice::Constant(Constant::Boolean(false))))
    } else {
        match spec_integer_text(t) {
            Some(v) => if i32::MIN <= v <= i32::MAX {
                Some(SpecTerm::Choice(SpecChoice::Constant(Constant::Integer(v as i32))))
            } else {
                None
            },
            None => None,
        }
    }
}

/// The value of digits grows as digits are added.
proof fn lemma_number_grows(d: Seq<char>, k: int)
    requires
        0 <= k <= d.len(),
        forall|i: int| 0 <= i < d.len() ==> spec_is_digit(#[trigger] d[i]),
    ensures
        spec_number(d) >= spec_number(d.subrange(0, k)),
        spec_number(d.subrange(0, k)) >= 0,
    decreases d.len(),
{
    if d.len() > 0 {
        if k == d.len() {
            assert(d.subrange(0, k) =~= d);
            lemma_number_grows(d.drop_last(), k - 1);
            assert(d.drop_last().subrange(0, k - 1) =~= d.drop_last());
        } else {
            lemma_number_grows(d.drop_last(), k);
            assert(d.drop_last().subrange(0, k) =~= d.subrange(0, k));
            lemma_number_grows(d.drop_last(), d.len() - 1);
            assert(d.drop_last().subrange(0, d.len() - 1) =~= d.drop_last());
        }
    } else {
        assert(d.subrange(0, k) =~= d);
    }
}

/// The bounds of the text without its white space at either end.
fn trimmed_bounds(c: &Vec<char>) -> (r: (usize, usize))
    ensures
        r.0 <= r.1 <= c.len(),
        c@.subrange(r.0 as int, r.1 as int) == spec_trim(c@),
{
    let mut start: usize = 0;
    let mut end: usize = c.len();
    proof {
        assert(c@.subrange(0, c.len() as int) =~= c@);
    }
    while start < end && (c[start] == ' ' || c[start] == '\t' || c[start] == '\n' || c[start]
        == '\x0C' || c[start] == '\r')
        invariant
            start <= end <= c.len(),
            end == c.len(),
            spec_trim(c@.subrange(start as int, end as int)) == spec_trim(c@),
        decreases end - start,
    {
        proof {
            assert(c@.subrange(start as int, end as int).drop_first() =~= c@.subrange(
                start + 1,
                end as int,
            ));
        }
        start = start + 1;
    }
    while start < end && (c[end - 1] == ' ' || c[end - 1] == '\t' || c[end - 1] == '\n' || c[end
        - 1] == '\x0C' || c[end - 1] == '\r')
        invariant
            start <= end <= c.len(),
            spec_trim(c@.subrange(start as int, end as int)) == spec_trim(c@),
            start < end ==> !spec_is_space(c@[start as int]),
        decreases end - start,
    {
        proof {
            let s = c@.subrange(start as int, end as int);
            assert(!(s.len() > 0 && spec_is_space(s[0])));
            assert(s.drop_last() =~= c@.subrange(start as int, end - 1));
        }
        end = end - 1;
    }
    proof {
        let s = c@.subrange(start as int, end as int);
        assert(!(s.len() > 0 && spec_is_space(s[0])));
        assert(!(s.len() > 0 && spec_is_space(s.last())));
    }
    (start, end)
}

/// Reads a line of input as a term: `true`, `false`, or an integer that fits in an `i32`,
/// white space around it ignored.
pub fn parse_input_term(line: &str) -> (r: Option<Term>)
    ensures
        match r {
            Some(t) => spec_input_term(line@) == Some(t@),
            None => spec_input_term(line@) is None,
        },
{
    let c = chars_of(line);
    let (start, end) = trimmed_bounds(&c);
    let ghost t = c@.subrange(start as int, end as int);
    proof {
        reveal_strlit("true");
        reveal_strlit("false");
    }
    if end - start == 4 && c[start] == 't' && c[start + 1] == 'r' && c[start + 2] == 'u' && c[start
        + 3] == 'e' {
        assert(t =~= "true"@);
        return Some(Term::Choice(Choice::Constant(Constant::Boolean(true))));
    }
    if end - start == 5 && c[start] == 'f' && c[start + 1] == 'a' && c[start + 2] == 'l' && c[start
        + 3] == 's' && c[start + 4] == 'e' {
        assert(t =~= "false"@);
        return Some(Term::Choice(Choice::Constant(Constant::Boolean(false))));
    }
    proof {
        if t == "true"@ {
            assert(t[0] == 't' && t[1] == 'r' && t[2] == 'u' && t[3] == 'e');
        }
        if t == "false"@ {
            assert(t[0] == 'f' && t[1] == 'a' && t[2] == 'l' && t[3] == 's' && t[4] == 'e');
        }
    }
    let negative = start < end && c[start] == '-';
    let first = if negative {
        start + 1
    } else {
        start
    };
    if first == end {
        proof {
            if negative {
                assert(!spec_all_digits(t.drop_first()));
            }
            assert(!spec_all_digits(t));
        }
        return None;
    }
    let ghost digits = c@.subrange(first as int, end as int);
    proof {
        if negative {
            assert(t.drop_first() =~= digits);
        } else {
            assert(t =~= digits);
        }
    }
    let mut value: i64 = 0;
    let mut i: usize = first;
    while i < end
        invariant
            first <= i <= end <= c.len(),
            start <= first,
            t == c@.subrange(start as int, end as int),
            c@ == line@,
            spec_trim(line@) == t,
            t != "true"@,
            t != "false"@,
            negative == (start < end && c@[start as int] == '-'),
            first == if negative {
                start + 1
            } else {
                start as int
            },
            negative ==> t.drop_first() == digits,
            !negative ==> t == digits,
            digits == c@.subrange(first as int, end as int),
            forall|k: int| first <= k < i ==> spec_is_digit(#[trigger] c@[k]),
            value == spec_number(c@.subrange(first as int, i as int)),
            0 <= value <= 1_000_000_000_009i64,
        decreases end - i,
    {
        if !('0' <= c[i] && c[i] <= '9') {
            proof {
                assert(!spec_is_digit(digits[i - first]));
                assert(!spec_all_digits(digits));
                if negative {
                    assert(t[0] == '-');
                    assert(!spec_is_digit(t[0]));
                    assert(!spec_all_digits(t));
                } else {
                    assert(t[0] == c@[start as int]);
                    assert(t[0] != '-');
                }
            }
            return None;
        }
        proof {
            assert(c@.subrange(first as int, i + 1).drop_last() =~= c@.subrange(
                first as int,
                i as int,
            ));
        }
        let d = (c[i] as u32 - '0' as u32) as i64;
        if value > 100_000_000_000i64 {
            proof {
                if spec_all_digits(digits) {
                    lemma_number_grows(digits, i - first);
                    assert(digits.subrange(0, i - first) =~= c@.subrange(first as int, i as int));
                }
                if negative {
                    assert(t.drop_first() =~= digits);
                } else {
                    assert(t =~= digits);
                }
            }
            return None;
        }
        value = value * 10 + d;
        i = i + 1;
    }
    proof {
        assert(c@.subrange(first as int, end as int) =~= digits);
        assert(spec_all_digits(digits));
    }
    let v = if negative {
        -value
    } else {
        value
    };
    if v < i32::MIN as i64 || v > i32::MAX as i64 {
        return None;
    }
    Some(Term::Choice(Choice::Constant(Constant::Integer(v as i32))))
}

} // verus!
