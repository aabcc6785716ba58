use vstd::prelude::*;
use vstd::string::{StrSliceExecFns, StringExecFns};

verus! {

/// The decimal digits of a natural number, most significant first.
pub open spec fn spec_digits(n: nat) -> Seq<char>
    decreases n,
{
    if n < 10 {
        seq![spec_digit_char(n)]
    } else {
        spec_digits(n / 10).push(spec_digit_char(n % 10))
    }
}

/// The character of a single decimal digit.
pub open spec fn spec_digit_char(d: nat) -> char {
    if d == 0 {
        '0'
    } else if d == 1 {
        '1'
    } else if d == 2 {
        '2'
    } else if d == 3 {
        '3'
    } else if d == 4 {
        '4'
    } else if d == 5 {
        '5'
    } else if d == 6 {
        '6'
    } else if d == 7 {
        '7'
    } else if d == 8 {
        '8'
    } else {
        '9'
    }
}

/// The decimal text of an integer, with a leading `-` when negative.
pub open spec fn spec_int_text(n: int) -> Seq<char> {
    if n < 0 {
        seq!['-'] + spec_digits((-n) as nat)
    } else {
        spec_digits(n as nat)
    }
}

/// The character of a single decimal digit.
fn digit_char(d: u64) -> (c: char)
    requires
        d < 10,
    ensures
        c == spec_digit_char(d as nat),
{
    if d == 0 {
        '0'
    } else if d == 1 {
        '1'
    } else if d == 2 {
        '2'
    } else if d == 3 {
        '3'
    } else if d == 4 {
        '4'
    } else if d == 5 {
        '5'
    } else if d == 6 {
        '6'
    } else if d == 7 {
        '7'
    } else if d == 8 {
        '8'
    } else {
        '9'
    }
}

/// Appends the decimal digits of a number.
fn push_digits(out: &mut String, n: u64)
    ensures
        final(out)@ == old(out)@ + spec_digits(n as nat),
    decreases n,
{
    let ghost start = out@;
    if n >= 10 {
        push_digits(out, n / 10);
    }
    push_char(out, digit_char(n % 10));
    assert(out@ =~= start + spec_digits(n as nat));
}

/// The decimal text of an `i32`, with a leading `-` when negative.
pub(crate) fn i32_text(n: i32) -> (s: String)
    ensures
        s@ == spec_int_text(n as int),
{
    let mut s = String::new();
    let m: i64 = n as i64;
    if m < 0 {
        push_char(&mut s, '-');
        push_digits(&mut s, (-m) as u64);
        assert(s@ =~= seq!['-'] + spec_digits((-n) as nat));
    } else {
        push_digits(&mut s, m as u64);
        assert(s@ =~= spec_digits(n as nat));
    }
    s
}

/// The decimal text of a `u64`.
pub(crate) fn u64_text(n: u64) -> (s: String)
    ensures
        s@ == spec_digits(n as nat),
{
    let mut s = String::new();
    push_digits(&mut s, n);
    assert(s@ =~= spec_digits(n as nat));
    s
}

/// The decimal text of a `usize`.
pub(crate) fn usize_text(n: usize) -> (s: String)
    ensures
        s@ == spec_digits(n as nat),
{
    u64_text(n as u64)
}

/// Appends text to a string.
pub(crate) fn push_text(s: &mut String, t: &str)
    ensures
        final(s)@ == old(s)@ + t@,
{
    s.append(t);
}

/// Appends one character to a string (`String::push`).
#[verifier::external_body]
pub(crate) fn push_char(s: &mut String, c: char)
    ensures
        final(s)@ == old(s)@.push(c),
{
    s.push(c)
}

/// An owned copy of a string slice.
pub fn owned(t: &str) -> (s: String)
    ensures
        s@ == t@,
{
    broadcast use vstd::string::to_string_from_display_ensures_for_str;

    t.to_string()
}

/// Joins two pieces of text into a new string.
pub fn concat(a: &str, b: &str) -> (s: String)
    ensures
        s@ == a@ + b@,
{
    let mut s = owned(a);
    push_text(&mut s, b);
    s
}

/// Distinct natural numbers have distinct decimal texts; a decimal text is never empty
/// and holds only digits.
pub proof fn lemma_digits(n: nat, m: nat)
    ensures
        spec_digits(n).len() >= 1,
        n != m ==> spec_digits(n) != spec_digits(m),
        forall|i: int|
            0 <= i < spec_digits(n).len() ==> '0' <= #[trigger] spec_digits(n)[i] <= '9',
    decreases n + m,
{
    if n >= 10 {
        lemma_digits(n / 10, n / 10);
    }
    if n != m {
        if n < 10 && m < 10 {
            assert(spec_digits(n)[0] != spec_digits(m)[0]);
        } else if n < 10 {
            lemma_digits(m / 10, m / 10);
            assert(spec_digits(m).len() >= 2);
        } else if m < 10 {
            assert(spec_digits(n).len() >= 2);
        } else {
            if n / 10 != m / 10 {
                lemma_digits(n / 10, m / 10);
                if spec_digits(n) == spec_digits(m) {
                    assert(spec_digits(n).drop_last() == spec_digits(n / 10));
                    assert(spec_digits(m).drop_last() == spec_digits(m / 10));
                }
            } else {
                assert(n % 10 != m % 10) by (nonlinear_arith)
                    requires
                        n / 10 == m / 10,
                        n != m,
                ;
                assert(spec_digits(n).last() == spec_digit_char(n % 10));
                assert(spec_digits(m).last() == spec_digit_char(m % 10));
                assert(spec_digits(n).last() != spec_digits(m).last());
            }
        }
    }
}

} // verus!

verus! {

/// Compares two pieces of text character by character.
pub(crate) fn text_eq(a: &str, b: &str) -> (r: bool)
    ensures
        r == (a@ == b@),
{
    let n = a.unicode_len();
    if n != b.unicode_len() {
        return false;
    }
    let mut i: usize = 0;
    while i < n
        invariant
            n == a@.len(),
            n == b@.len(),
            i <= n,
            forall|j: int| 0 <= j < i ==> a@[j] == b@[j],
        decreases n - i,
    {
        if a.get_char(i) != b.get_char(i) {
            return false;
        }
        i = i + 1;
    }
    assert(a@ =~= b@);
    true
}

} // verus!
