use vstd::prelude::*;

use crate::fmc_core::choice::{spec_skip, Constant, SpecChoice, SpecException};
use crate::fmc_core::location::SpecLocation;
use crate::fmc_core::render::{spec_choice_text, spec_location_text, spec_special_text, spec_term_text};
use crate::fmc_core::special::Special;
use crate::fmc_core::term::{
    lemma_expand_operations_without_operations, spec_expand_operations, spec_no_ops, SpecTerm,
};
use crate::interpreter::grammar::{
    rule_assignment, rule_atom, rule_binary, rule_call, rule_embedded_fmc, rule_expr_stmt,
    rule_expression, rule_loop_rest, rule_loop_term, rule_operand, rule_primary, rule_program,
    rule_program_rest, rule_sequence, rule_statement, rule_unary, spec_atom_special, spec_binary_op,
    spec_fold_statements, spec_link_functions, spec_named_location, spec_token_choice, SpecParser,
    SpecParserError,
};
use crate::interpreter::lexer::{
    spec_advance, spec_is_alpha, spec_is_digit, spec_is_word, spec_keyword, spec_lex, spec_number,
    spec_run, spec_scan, spec_tokenise, SpecScan,
};
use crate::interpreter::lithe::{spec_compile, SpecCompileError};
use crate::interpreter::token::{spec_is_choice, SpecToken, SpecTokenType};
use crate::text::{lemma_digits, spec_digit_char, spec_digits};

verus! {

// The printed syntax of raw FMC terms, and reading it back.
//
// A printed term is read back by the embedded-FMC rules of the grammar. Reading gives the
// printed term back, but for locations: a location is printed by its name, and a name read
// back stands for a stream (`in`, `out`, `rnd_b`, `rnd_f`) or else for a cell, so a stack or
// a local location comes back as the cell of the same name.

/// A name that lexes as one identifier: `_` alone, or an ASCII letter followed by letters,
/// digits and `_` that is no keyword.
pub open spec fn spec_plain_name(w: Seq<char>) -> bool {
    ||| w == seq!['_']
    ||| {
        &&& w.len() > 0
        &&& spec_is_alpha(w[0])
        &&& forall|j: int| 0 <= j < w.len() ==> spec_is_word(#[trigger] w[j])
        &&& spec_keyword(w) == SpecTokenType::Identifier(w)
    }
}

/// A choice that has a token of its own: a non-negative integer, a boolean, `#`, `break` or
/// `return`.
pub open spec fn spec_choice_readable(c: SpecChoice) -> bool {
    match c {
        SpecChoice::Constant(Constant::Integer(n)) => n >= 0,
        SpecChoice::Constant(Constant::Boolean(_)) => true,
        SpecChoice::Exception(SpecException::Exception(_)) => false,
        SpecChoice::Exception(_) => true,
    }
}

/// A location whose printed name is a plain name.
pub open spec fn spec_location_readable(l: SpecLocation) -> bool {
    match l {
        SpecLocation::Cell(name) => spec_plain_name(name),
        SpecLocation::Stack(name) => spec_plain_name(name),
        SpecLocation::Local(name) => spec_plain_name(name),
        _ => true,
    }
}

/// A raw FMC term (no operations) whose printed text reads back: its names are plain, its
/// choices have tokens, and no loop is printed around an abstraction or an application
/// (whose body would take the loop's `^` as its own).
pub open spec fn spec_readable(t: SpecTerm) -> bool
    decreases t,
{
    match t {
        SpecTerm::Variable { name } => spec_plain_name(name),
        SpecTerm::Choice(c) => spec_choice_readable(c),
        SpecTerm::Special(_) => true,
        SpecTerm::Operation(_) => false,
        SpecTerm::Abstraction { binds, term, location } => spec_plain_name(binds)
            && spec_location_readable(location) && spec_readable(*term),
        SpecTerm::Application { function, argument, location } => spec_location_readable(
            location,
        ) && spec_readable(*function) && spec_readable(*argument),
        SpecTerm::Case { term, exit, then } => spec_choice_readable(exit) && spec_readable(*term)
            && spec_readable(*then),
        SpecTerm::Loop { term, branch } => spec_choice_readable(branch) && spec_readable(*term)
            && !(*term is Abstraction) && !(*term is Application),
    }
}

/// The location that the printed name of a location stands for when read back.
pub open spec fn spec_reread_location(l: SpecLocation) -> SpecLocation {
    if l == SpecLocation::Main {
        SpecLocation::Main
    } else {
        spec_named_location(spec_location_text(l))
    }
}

/// A term with each location replaced by the one its printed name stands for.
pub open spec fn spec_reread(t: SpecTerm) -> SpecTerm
    decreases t,
{
    match t {
        SpecTerm::Abstraction { binds, term, location } => SpecTerm::Abstraction {
            binds,
            term: Box::new(spec_reread(*term)),
            location: spec_reread_location(location),
        },
        SpecTerm::Application { function, argument, location } => SpecTerm::Application {
            function: Box::new(spec_reread(*function)),
            argument: Box::new(spec_reread(*argument)),
            location: spec_reread_location(location),
        },
        SpecTerm::Case { term, exit, then } => SpecTerm::Case {
            term: Box::new(spec_reread(*term)),
            exit,
            then: Box::new(spec_reread(*then)),
        },
        SpecTerm::Loop { term, branch } => SpecTerm::Loop {
            term: Box::new(spec_reread(*term)),
            branch,
        },
        _ => t,
    }
}

/// The token kind of a printed choice.
pub open spec fn spec_choice_kind(c: SpecChoice) -> SpecTokenType {
    match c {
        SpecChoice::Constant(Constant::Integer(n)) => SpecTokenType::Integer(n),
        SpecChoice::Constant(Constant::Boolean(b)) => if b {
            SpecTokenType::True
        } else {
            SpecTokenType::False
        },
        SpecChoice::Exception(SpecException::Skip) => SpecTokenType::Skip,
        SpecChoice::Exception(SpecException::Break) => SpecTokenType::Break,
        SpecChoice::Exception(SpecException::Return) => SpecTokenType::Return,
        SpecChoice::Exception(SpecException::Exception(name)) => SpecTokenType::Identifier(name),
    }
}

/// The token kind of a printed primitive.
pub open spec fn spec_special_kind(s: Special) -> SpecTokenType {
    match s {
        Special::LogicOr => SpecTokenType::Or,
        Special::LogicAnd => SpecTokenType::And,
        Special::LogicNot => SpecTokenType::Not,
        Special::Equal => SpecTokenType::Equal,
        Special::NotEqual => SpecTokenType::NotEqual,
        Special::LessThan => SpecTokenType::LAngleBracket,
        Special::GreaterThan => SpecTokenType::RAngleBracket,
        Special::LessThanEqual => SpecTokenType::LessThanEqual,
        Special::GreaterThanEqual => SpecTokenType::GreaterThanEqual,
        Special::Addition => SpecTokenType::Plus,
        Special::Subraction => SpecTokenType::Minus,
        Special::Multiplication => SpecTokenType::Star,
        Special::Division => SpecTokenType::Divide,
        Special::Modulo => SpecTokenType::Modulo,
        Special::IntCast => SpecTokenType::Int,
    }
}

/// The tokens of a printed location that is not the main one: its name.
pub open spec fn spec_location_kinds(l: SpecLocation) -> Seq<SpecTokenType> {
    if l == SpecLocation::Main {
        Seq::empty()
    } else {
        seq![SpecTokenType::Identifier(spec_location_text(l))]
    }
}

/// The token kinds of the text of a term printed at precedence `prec` (see
/// `spec_term_text`).
pub open spec fn spec_term_kinds(t: SpecTerm, prec: nat) -> Seq<SpecTokenType>
    decreases t,
{
    match t {
        SpecTerm::Case { term, exit, then } => {
            let inner = spec_term_kinds(*term, 2) + seq![SpecTokenType::SemiColon] + (if exit
                != spec_skip() {
                seq![spec_choice_kind(exit), SpecTokenType::Arrow]
            } else {
                Seq::empty()
            }) + spec_term_kinds(*then, 1);
            if prec > 1 {
                seq![SpecTokenType::LParen] + inner + seq![SpecTokenType::RParen]
            } else {
                inner
            }
        },
        SpecTerm::Loop { term, branch } => {
            let inner = spec_term_kinds(*term, 2) + seq![
                SpecTokenType::Caret,
                spec_choice_kind(branch),
            ];
            if prec > 2 {
                seq![SpecTokenType::LParen] + inner + seq![SpecTokenType::RParen]
            } else {
                inner
            }
        },
        SpecTerm::Abstraction { binds, term, location } => spec_location_kinds(location) + seq![
            SpecTokenType::LAngleBracket,
            SpecTokenType::Identifier(binds),
            SpecTokenType::RAngleBracket,
            SpecTokenType::Dot,
        ] + spec_term_kinds(*term, 2),
        SpecTerm::Application { function, argument, location } => seq![SpecTokenType::LBracket]
            + spec_term_kinds(*argument, 0) + seq![SpecTokenType::RBracket] + spec_location_kinds(
            location,
        ) + seq![SpecTokenType::Dot] + spec_term_kinds(*function, 2),
        SpecTerm::Variable { name } => seq![SpecTokenType::Identifier(name)],
        SpecTerm::Choice(c) => seq![spec_choice_kind(c)],
        SpecTerm::Special(s) => seq![spec_special_kind(s)],
        SpecTerm::Operation(_) => Seq::empty(),
    }
}

/// Whether the tokens from position `k` on begin with the given kinds.
pub open spec fn spec_kinds_at(ts: Seq<SpecToken>, k: int, kinds: Seq<SpecTokenType>) -> bool {
    &&& 0 <= k
    &&& k + kinds.len() <= ts.len()
    &&& forall|j: int| 0 <= j < kinds.len() ==> ts[k + j].token_type == #[trigger] kinds[j]
}

/// A token kind that may follow a printed term: what closes a group, `;`, or `^`.
pub open spec fn spec_is_follower(tt: SpecTokenType) -> bool {
    tt == SpecTokenType::SemiColon || tt == SpecTokenType::RParen || tt
        == SpecTokenType::RBracket || tt == SpecTokenType::Backslash || tt == SpecTokenType::Caret
}

/// The parser state `n` tokens further on.
pub open spec fn spec_moved(p: SpecParser, n: int) -> SpecParser {
    SpecParser { index: p.index + n, functions: p.functions, next_var: p.next_var }
}

proof fn lemma_kinds_at_split(ts: Seq<SpecToken>, k: int, a: Seq<SpecTokenType>, b: Seq<SpecTokenType>)
    requires
        spec_kinds_at(ts, k, a + b),
    ensures
        spec_kinds_at(ts, k, a),
        spec_kinds_at(ts, k + a.len(), b),
{
    assert forall|j: int| 0 <= j < a.len() implies ts[k + j].token_type == #[trigger] a[j] by {
        assert((a + b)[j] == a[j]);
    }
    assert forall|j: int| 0 <= j < b.len() implies ts[k + a.len() + j].token_type == #[trigger] b[j] by {
        assert((a + b)[a.len() + j] == b[j]);
    }
}

proof fn lemma_choice_token(c: SpecChoice)
    requires
        spec_choice_readable(c),
    ensures
        spec_is_choice(spec_choice_kind(c)),
        spec_token_choice(spec_choice_kind(c)) == Some(c),
        spec_atom_special(spec_choice_kind(c)) is None,
{
}

/// Every readable term prints to at least one token.
proof fn lemma_kinds_nonempty(t: SpecTerm, prec: nat)
    requires
        spec_readable(t),
    ensures
        spec_term_kinds(t, prec).len() > 0,
    decreases t,
{
    match t {
        SpecTerm::Case { term, .. } => lemma_kinds_nonempty(*term, 2),
        SpecTerm::Loop { term, .. } => lemma_kinds_nonempty(*term, 2),
        _ => {},
    }
}

/// The first token of a printed readable term is no `->` and no `:=`, and its second is no `->`.
proof fn lemma_kinds_no_leading_arrow(t: SpecTerm, prec: nat)
    requires
        spec_readable(t),
    ensures
        spec_term_kinds(t, prec)[0] != SpecTokenType::Arrow,
        spec_term_kinds(t, prec)[0] != SpecTokenType::Assignment,
        spec_term_kinds(t, prec).len() > 1 ==> spec_term_kinds(t, prec)[1] != SpecTokenType::Arrow,
    decreases t,
{
    lemma_kinds_nonempty(t, prec);
    match t {
        SpecTerm::Case { term, exit, then } => {
            lemma_kinds_no_leading_arrow(*term, 2);
            lemma_kinds_nonempty(*term, 2);
        },
        SpecTerm::Loop { term, .. } => {
            lemma_kinds_no_leading_arrow(*term, 2);
            lemma_kinds_nonempty(*term, 2);
        },
        SpecTerm::Application { argument, .. } => {
            lemma_kinds_no_leading_arrow(*argument, 0);
            lemma_kinds_nonempty(*argument, 0);
        },
        _ => {},
    }
}


proof fn lemma_kind_at(ts: Seq<SpecToken>, k: int, kinds: Seq<SpecTokenType>, j: int)
    requires
        spec_kinds_at(ts, k, kinds),
        0 <= j < kinds.len(),
    ensures
        ts[k + j].token_type == kinds[j],
{
}

/// Reading the tokens of a printed term (at precedence 0 or 1) as a sequence gives the term
/// back, with its locations read back from their names.
proof fn lemma_read_sequence(ts: Seq<SpecToken>, p: SpecParser, t: SpecTerm, prec: nat)
    requires
        prec <= 1,
        spec_readable(t),
        spec_kinds_at(ts, p.index, spec_term_kinds(t, prec)),
        p.index + spec_term_kinds(t, prec).len() < ts.len(),
        ts[p.index + spec_term_kinds(t, prec).len()].token_type == SpecTokenType::RParen
            || ts[p.index + spec_term_kinds(t, prec).len()].token_type == SpecTokenType::RBracket
            || ts[p.index + spec_term_kinds(t, prec).len()].token_type == SpecTokenType::Backslash,
    ensures
        rule_sequence(ts, p) == Some(
            (Ok::<SpecTerm, SpecParserError>(spec_reread(t)), spec_moved(p, spec_term_kinds(t, prec).len() as int)),
        ),
    decreases t, if t is Case { 0int } else { 5int },
{
    let kinds = spec_term_kinds(t, prec);
    match t {
        SpecTerm::Case { term, exit, then } => {
            let kt = spec_term_kinds(*term, 2);
            let mid = if exit != spec_skip() {
                seq![spec_choice_kind(exit), SpecTokenType::Arrow]
            } else {
                Seq::<SpecTokenType>::empty()
            };
            let kn = spec_term_kinds(*then, 1);
            assert(kinds == kt + seq![SpecTokenType::SemiColon] + mid + kn);
            lemma_kinds_at_split(ts, p.index, kt + seq![SpecTokenType::SemiColon] + mid, kn);
            lemma_kinds_at_split(ts, p.index, kt + seq![SpecTokenType::SemiColon], mid);
            lemma_kinds_at_split(ts, p.index, kt, seq![SpecTokenType::SemiColon]);
            let e1 = p.index + kt.len();
            lemma_kind_at(ts, e1, seq![SpecTokenType::SemiColon], 0);
            lemma_read_loop(ts, p, *term);
            let q = spec_moved(p, kt.len() as int);
            let q1 = spec_moved(p, (kt.len() + 1) as int);
            let q3 = spec_moved(p, (kt.len() + 1 + mid.len()) as int);
            lemma_kinds_nonempty(*then, 1);
            lemma_read_sequence(ts, q3, *then, 1);
            if exit != spec_skip() {
                lemma_choice_token(exit);
                lemma_kind_at(ts, e1 + 1, mid, 0);
                lemma_kind_at(ts, e1 + 1, mid, 1);
                assert(rule_sequence(ts, p) == Some(
                    (Ok::<SpecTerm, SpecParserError>(spec_reread(t)), spec_moved(p, kinds.len() as int)),
                ));
            } else {
                assert(mid.len() == 0);
                lemma_kind_at(ts, q3.index, kn, 0);
                lemma_kinds_no_leading_arrow(*then, 1);
                if kn.len() > 1 {
                    lemma_kind_at(ts, q3.index, kn, 1);
                }
                assert(rule_sequence(ts, p) == Some(
                    (Ok::<SpecTerm, SpecParserError>(spec_reread(t)), spec_moved(p, kinds.len() as int)),
                ));
            }
        },
        _ => {
            assert(kinds == spec_term_kinds(t, 2));
            lemma_read_loop(ts, p, t);
        },
    }
}

/// Reading the tokens of a printed term (at precedence 2) as a loop term reads the term back
/// and goes on with what follows it; where no `^` follows, that is the term.
proof fn lemma_read_loop(ts: Seq<SpecToken>, p: SpecParser, t: SpecTerm)
    requires
        spec_readable(t),
        spec_kinds_at(ts, p.index, spec_term_kinds(t, 2)),
        p.index + spec_term_kinds(t, 2).len() < ts.len(),
        spec_is_follower(ts[p.index + spec_term_kinds(t, 2).len()].token_type),
        (t is Abstraction || t is Application) ==> ts[p.index + spec_term_kinds(
            t,
            2,
        ).len()].token_type != SpecTokenType::Caret,
    ensures
        rule_loop_term(ts, p) == rule_loop_rest(
            ts,
            spec_moved(p, spec_term_kinds(t, 2).len() as int),
            spec_reread(t),
        ),
        ts[p.index + spec_term_kinds(t, 2).len()].token_type != SpecTokenType::Caret
            ==> rule_loop_term(ts, p) == Some(
            (Ok::<SpecTerm, SpecParserError>(spec_reread(t)), spec_moved(p, spec_term_kinds(t, 2).len() as int)),
        ),
    decreases t, 4int,
{
    let kinds = spec_term_kinds(t, 2);
    let e = p.index + kinds.len();
    match t {
        SpecTerm::Loop { term, branch } => {
            let ku = spec_term_kinds(*term, 2);
            assert(kinds == ku + seq![SpecTokenType::Caret, spec_choice_kind(branch)]);
            lemma_kinds_at_split(ts, p.index, ku, seq![SpecTokenType::Caret, spec_choice_kind(branch)]);
            lemma_kind_at(ts, p.index + ku.len(), seq![SpecTokenType::Caret, spec_choice_kind(branch)], 0);
            lemma_kind_at(ts, p.index + ku.len(), seq![SpecTokenType::Caret, spec_choice_kind(branch)], 1);
            lemma_read_loop(ts, p, *term);
            lemma_choice_token(branch);
            assert(rule_loop_rest(ts, spec_moved(p, ku.len() as int), spec_reread(*term))
                == rule_loop_rest(ts, spec_moved(p, kinds.len() as int), spec_reread(t)));
        },
        _ => {
            lemma_read_atom(ts, p, t);
        },
    }
}

/// Reading the tokens of a printed term that is no loop (at precedence 2) as an atom gives
/// the term back.
proof fn lemma_read_atom(ts: Seq<SpecToken>, p: SpecParser, t: SpecTerm)
    requires
        !(t is Loop),
        spec_readable(t),
        spec_kinds_at(ts, p.index, spec_term_kinds(t, 2)),
        p.index + spec_term_kinds(t, 2).len() < ts.len(),
        spec_is_follower(ts[p.index + spec_term_kinds(t, 2).len()].token_type),
        (t is Abstraction || t is Application) ==> ts[p.index + spec_term_kinds(
            t,
            2,
        ).len()].token_type != SpecTokenType::Caret,
    ensures
        rule_atom(ts, p) == Some(
            (Ok::<SpecTerm, SpecParserError>(spec_reread(t)), spec_moved(p, spec_term_kinds(t, 2).len() as int)),
        ),
    decreases t, if t is Case { 1int } else { 3int },
{
    let kinds = spec_term_kinds(t, 2);
    let e = p.index + kinds.len();
    match t {
        SpecTerm::Variable { name } => {
            lemma_kind_at(ts, p.index, kinds, 0);
        },
        SpecTerm::Choice(c) => {
            lemma_kind_at(ts, p.index, kinds, 0);
            lemma_choice_token(c);
        },
        SpecTerm::Special(s) => {
            lemma_kind_at(ts, p.index, kinds, 0);
        },
        SpecTerm::Case { .. } => {
            let inner = spec_term_kinds(t, 1);
            assert(kinds == seq![SpecTokenType::LParen] + inner + seq![SpecTokenType::RParen]);
            lemma_kinds_at_split(ts, p.index, seq![SpecTokenType::LParen] + inner, seq![SpecTokenType::RParen]);
            lemma_kinds_at_split(ts, p.index, seq![SpecTokenType::LParen], inner);
            lemma_kind_at(ts, p.index, seq![SpecTokenType::LParen], 0);
            lemma_kind_at(ts, p.index + 1 + inner.len(), seq![SpecTokenType::RParen], 0);
            lemma_read_sequence(ts, spec_moved(p, 1), t, 1);
        },
        SpecTerm::Abstraction { .. } => lemma_read_abstraction(ts, p, t),
        SpecTerm::Application { .. } => lemma_read_application(ts, p, t),
        _ => {},
    }
}

proof fn lemma_read_abstraction(ts: Seq<SpecToken>, p: SpecParser, t: SpecTerm)
    requires
        t is Abstraction,
        spec_readable(t),
        spec_kinds_at(ts, p.index, spec_term_kinds(t, 2)),
        p.index + spec_term_kinds(t, 2).len() < ts.len(),
        spec_is_follower(ts[p.index + spec_term_kinds(t, 2).len()].token_type),
        ts[p.index + spec_term_kinds(t, 2).len()].token_type != SpecTokenType::Caret,
    ensures
        rule_atom(ts, p) == Some(
            (Ok::<SpecTerm, SpecParserError>(spec_reread(t)), spec_moved(p, spec_term_kinds(t, 2).len() as int)),
        ),
    decreases t, 2int,
{
    let kinds = spec_term_kinds(t, 2);
    match t {
        SpecTerm::Abstraction { binds, term, location } => {
            let kl = spec_location_kinds(location);
            let head = seq![
                SpecTokenType::LAngleBracket,
                SpecTokenType::Identifier(binds),
                SpecTokenType::RAngleBracket,
                SpecTokenType::Dot,
            ];
            let kb = spec_term_kinds(*term, 2);
            assert(kinds == kl + head + kb);
            lemma_kinds_at_split(ts, p.index, kl + head, kb);
            lemma_kinds_at_split(ts, p.index, kl, head);
            let h = p.index + kl.len();
            lemma_kind_at(ts, h, head, 0);
            lemma_kind_at(ts, h, head, 1);
            lemma_kind_at(ts, h, head, 2);
            lemma_kind_at(ts, h, head, 3);
            if location != SpecLocation::Main {
                lemma_kind_at(ts, p.index, kl, 0);
            }
            lemma_read_loop(ts, spec_moved(p, (kl.len() + 4) as int), *term);
        },
        _ => {},
    }
}

proof fn lemma_read_application(ts: Seq<SpecToken>, p: SpecParser, t: SpecTerm)
    requires
        t is Application,
        spec_readable(t),
        spec_kinds_at(ts, p.index, spec_term_kinds(t, 2)),
        p.index + spec_term_kinds(t, 2).len() < ts.len(),
        spec_is_follower(ts[p.index + spec_term_kinds(t, 2).len()].token_type),
        ts[p.index + spec_term_kinds(t, 2).len()].token_type != SpecTokenType::Caret,
    ensures
        rule_atom(ts, p) == Some(
            (Ok::<SpecTerm, SpecParserError>(spec_reread(t)), spec_moved(p, spec_term_kinds(t, 2).len() as int)),
        ),
    decreases t, 2int,
{
    let kinds = spec_term_kinds(t, 2);
    match t {
        SpecTerm::Application { function, argument, location } => {
            let ka = spec_term_kinds(*argument, 0);
            let kl = spec_location_kinds(location);
            let kf = spec_term_kinds(*function, 2);
            assert(kinds == seq![SpecTokenType::LBracket] + ka + seq![SpecTokenType::RBracket]
                + kl + seq![SpecTokenType::Dot] + kf);
            lemma_kinds_at_split(ts, p.index, seq![SpecTokenType::LBracket] + ka
                + seq![SpecTokenType::RBracket] + kl + seq![SpecTokenType::Dot], kf);
            lemma_kinds_at_split(ts, p.index, seq![SpecTokenType::LBracket] + ka
                + seq![SpecTokenType::RBracket] + kl, seq![SpecTokenType::Dot]);
            lemma_kinds_at_split(ts, p.index, seq![SpecTokenType::LBracket] + ka
                + seq![SpecTokenType::RBracket], kl);
            lemma_kinds_at_split(ts, p.index, seq![SpecTokenType::LBracket] + ka,
                seq![SpecTokenType::RBracket]);
            lemma_kinds_at_split(ts, p.index, seq![SpecTokenType::LBracket], ka);
            lemma_kind_at(ts, p.index, seq![SpecTokenType::LBracket], 0);
            let r = p.index + 1 + ka.len();
            lemma_kind_at(ts, r, seq![SpecTokenType::RBracket], 0);
            lemma_kind_at(ts, r + 1 + kl.len(), seq![SpecTokenType::Dot], 0);
            if location != SpecLocation::Main {
                lemma_kind_at(ts, r + 1, kl, 0);
            }
            lemma_kinds_nonempty(*argument, 0);
            lemma_read_sequence(ts, spec_moved(p, 1), *argument, 0);
            lemma_read_loop(ts, spec_moved(p, (1 + ka.len() + 1 + kl.len() + 1) as int), *function);
        },
        _ => {},
    }
}

// Lexing printed text.

/// Lexing from position `i` reads the text up to position `j` as tokens of the given kinds
/// and then goes on as lexing from `j` does: the same tokens and errors after them, and
/// `None` exactly where lexing from `j` gives `None`.
pub open spec fn spec_lexes(
    s: Seq<char>,
    i: nat,
    line: nat,
    column: nat,
    j: nat,
    kinds: Seq<SpecTokenType>,
) -> bool {
    let (l2, c2) = spec_advance(line, column, s.subrange(i as int, j as int));
    &&& i <= j <= s.len()
    &&& match spec_lex(s, j, l2, c2) {
        None => spec_lex(s, i, line, column) is None,
        Some((rest, errors)) => match spec_lex(s, i, line, column) {
            Some((all, errors2)) => {
                &&& errors2 == errors
                &&& all.len() == kinds.len() + rest.len()
                &&& forall|k: int| 0 <= k < kinds.len() ==> #[trigger] all[k].token_type == kinds[k]
                &&& forall|k: int| 0 <= k < rest.len() ==> all[kinds.len() + k] == #[trigger] rest[k]
            },
            None => false,
        },
    }
}

proof fn lemma_advance_concat(line: nat, column: nat, a: Seq<char>, b: Seq<char>)
    ensures
        spec_advance(line, column, a + b) == ({
            let (l, c) = spec_advance(line, column, a);
            spec_advance(l, c, b)
        }),
    decreases b.len(),
{
    if b.len() == 0 {
        assert(a + b =~= a);
    } else {
        lemma_advance_concat(line, column, a, b.drop_last());
        assert((a + b).drop_last() =~= a + b.drop_last());
        assert((a + b).last() == b.last());
    }
}

proof fn lemma_lexes_trans(
    s: Seq<char>,
    i: nat,
    line: nat,
    column: nat,
    j: nat,
    k1: Seq<SpecTokenType>,
    m: nat,
    k2: Seq<SpecTokenType>,
)
    requires
        spec_lexes(s, i, line, column, j, k1),
        spec_lexes(
            s,
            j,
            spec_advance(line, column, s.subrange(i as int, j as int)).0,
            spec_advance(line, column, s.subrange(i as int, j as int)).1,
            m,
            k2,
        ),
    ensures
        spec_lexes(s, i, line, column, m, k1 + k2),
{
    let (l2, c2) = spec_advance(line, column, s.subrange(i as int, j as int));
    assert(s.subrange(i as int, m as int) =~= s.subrange(i as int, j as int) + s.subrange(
        j as int,
        m as int,
    ));
    lemma_advance_concat(line, column, s.subrange(i as int, j as int), s.subrange(j as int, m as int));
    let (l3, c3) = spec_advance(line, column, s.subrange(i as int, m as int));
    match spec_lex(s, m, l3, c3) {
        None => {},
        Some((rest, errors)) => {
            let (mid, e2) = spec_lex(s, j, l2, c2).unwrap();
            let (all, e1) = spec_lex(s, i, line, column).unwrap();
            assert forall|k: int| 0 <= k < (k1 + k2).len() implies #[trigger] all[k].token_type
                == (k1 + k2)[k] by {
                if k >= k1.len() {
                    assert(all[k1.len() + (k - k1.len())] == mid[k - k1.len()]);
                }
            }
            assert forall|k: int| 0 <= k < rest.len() implies all[(k1 + k2).len() + k]
                == #[trigger] rest[k] by {
                assert(mid[k2.len() + k] == rest[k]);
                assert(all[k1.len() + (k2.len() + k)] == mid[k2.len() + k]);
            }
        },
    }
}

proof fn lemma_lexes_one(s: Seq<char>, i: nat, line: nat, column: nat, tt: SpecTokenType, len: nat)
    requires
        i < s.len(),
        spec_scan(s, i as int) == Some((SpecScan::Emit(tt), len)),
        0 < len,
        i + len <= s.len(),
    ensures
        spec_lexes(s, i, line, column, i + len, seq![tt]),
{
}

/// A character that is a token by itself, whatever follows it.
pub open spec fn spec_single_kind(ch: char) -> Option<SpecTokenType> {
    if ch == '[' {
        Some(SpecTokenType::LBracket)
    } else if ch == ']' {
        Some(SpecTokenType::RBracket)
    } else if ch == '(' {
        Some(SpecTokenType::LParen)
    } else if ch == ')' {
        Some(SpecTokenType::RParen)
    } else if ch == '.' {
        Some(SpecTokenType::Dot)
    } else if ch == '^' {
        Some(SpecTokenType::Caret)
    } else if ch == ';' {
        Some(SpecTokenType::SemiColon)
    } else if ch == '*' {
        Some(SpecTokenType::Star)
    } else if ch == '+' {
        Some(SpecTokenType::Plus)
    } else if ch == '/' {
        Some(SpecTokenType::Divide)
    } else if ch == '%' {
        Some(SpecTokenType::Modulo)
    } else if ch == '\\' {
        Some(SpecTokenType::Backslash)
    } else if ch == '#' {
        Some(SpecTokenType::Skip)
    } else {
        None
    }
}

/// A character that may follow printed text: what closes a group, `;`, `^`, or a space.
pub open spec fn spec_is_stop(ch: char) -> bool {
    ch == ';' || ch == '^' || ch == ']' || ch == ')' || ch == '\\' || ch == ' '
}

proof fn lemma_lex_single(s: Seq<char>, i: nat, line: nat, column: nat)
    requires
        i < s.len(),
        spec_single_kind(s[i as int]) is Some,
    ensures
        spec_lexes(s, i, line, column, i + 1, seq![spec_single_kind(s[i as int]).unwrap()]),
{
    lemma_lexes_one(s, i, line, column, spec_single_kind(s[i as int]).unwrap(), 1);
}

proof fn lemma_run_word(s: Seq<char>, k: int, end: int)
    requires
        0 <= k <= end <= s.len(),
        forall|j: int| k <= j < end ==> spec_is_word(#[trigger] s[j]),
        end == s.len() || !spec_is_word(s[end]),
    ensures
        spec_run(s, k, true) == end - k,
    decreases end - k,
{
    if k < end {
        lemma_run_word(s, k + 1, end);
    }
}

proof fn lemma_run_digits(s: Seq<char>, k: int, end: int)
    requires
        0 <= k <= end <= s.len(),
        forall|j: int| k <= j < end ==> spec_is_digit(#[trigger] s[j]),
        end == s.len() || !spec_is_digit(s[end]),
    ensures
        spec_run(s, k, false) == end - k,
    decreases end - k,
{
    if k < end {
        lemma_run_digits(s, k + 1, end);
    }
}

/// A word (a letter followed by letters, digits and `_`) that no word character follows
/// lexes as its keyword or as an identifier.
proof fn lemma_lex_word(s: Seq<char>, i: nat, line: nat, column: nat, w: Seq<char>)
    requires
        w.len() > 0,
        spec_is_alpha(w[0]),
        forall|j: int| 0 <= j < w.len() ==> spec_is_word(#[trigger] w[j]),
        i + w.len() <= s.len(),
        s.subrange(i as int, (i + w.len()) as int) == w,
        i + w.len() == s.len() || !spec_is_word(s[(i + w.len()) as int]),
    ensures
        spec_lexes(s, i, line, column, i + w.len(), seq![spec_keyword(w)]),
{
    assert(s[i as int] == w[0]);
    assert forall|j: int| i + 1 <= j < i + w.len() implies spec_is_word(#[trigger] s[j]) by {
        assert(s[j] == w[j - i]);
    }
    lemma_run_word(s, (i + 1) as int, (i + w.len()) as int);
    lemma_lexes_one(s, i, line, column, spec_keyword(w), w.len());
}

/// A plain name that no word character follows lexes as that identifier.
proof fn lemma_lex_name(s: Seq<char>, i: nat, line: nat, column: nat, w: Seq<char>)
    requires
        spec_plain_name(w),
        i + w.len() <= s.len(),
        s.subrange(i as int, (i + w.len()) as int) == w,
        i + w.len() == s.len() || !spec_is_word(s[(i + w.len()) as int]),
    ensures
        spec_lexes(s, i, line, column, i + w.len(), seq![SpecTokenType::Identifier(w)]),
{
    if w == seq!['_'] {
        assert(s.subrange(i as int, (i + 1) as int)[0] == s[i as int]);
        assert(s[i as int] == '_');
        lemma_lexes_one(s, i, line, column, SpecTokenType::Identifier(w), 1);
    } else {
        lemma_lex_word(s, i, line, column, w);
    }
}

proof fn lemma_number_push(d: Seq<char>, ch: char)
    ensures
        spec_number(d.push(ch)) == spec_number(d) * 10 + (ch as int - '0' as int),
{
    assert(d.push(ch).drop_last() =~= d);
}

proof fn lemma_number_digits(n: nat)
    ensures
        spec_number(spec_digits(n)) == n,
    decreases n,
{
    if n < 10 {
        assert(seq![spec_digit_char(n)] =~= Seq::<char>::empty().push(spec_digit_char(n)));
        lemma_number_push(Seq::empty(), spec_digit_char(n));
    } else {
        lemma_number_digits(n / 10);
        lemma_number_push(spec_digits(n / 10), spec_digit_char(n % 10));
    }
}

/// The digits of a number that fits an `i32`, followed by no digit, lex as that number.
proof fn lemma_lex_digits(s: Seq<char>, i: nat, line: nat, column: nat, n: nat)
    requires
        n <= i32::MAX,
        i + spec_digits(n).len() <= s.len(),
        s.subrange(i as int, (i + spec_digits(n).len()) as int) == spec_digits(n),
        i + spec_digits(n).len() == s.len() || !spec_is_digit(s[(i + spec_digits(n).len()) as int]),
    ensures
        spec_lexes(s, i, line, column, i + spec_digits(n).len(), seq![SpecTokenType::Integer(n as i32)]),
{
    let d = spec_digits(n);
    lemma_digits(n, n);
    assert(s[i as int] == d[0]);
    assert forall|j: int| i + 1 <= j < i + d.len() implies spec_is_digit(#[trigger] s[j]) by {
        assert(s[j] == d[j - i]);
    }
    lemma_run_digits(s, (i + 1) as int, (i + d.len()) as int);
    lemma_number_digits(n);
    lemma_lexes_one(s, i, line, column, SpecTokenType::Integer(n as i32), d.len());
}

/// The words that printed choices, primitives and stream locations use, and what they lex
/// as.
proof fn lemma_printed_words()
    ensures
        spec_keyword("true"@) == SpecTokenType::True,
        spec_keyword("false"@) == SpecTokenType::False,
        spec_keyword("break"@) == SpecTokenType::Break,
        spec_keyword("return"@) == SpecTokenType::Return,
        spec_keyword("int"@) == SpecTokenType::Int,
        spec_plain_name("in"@),
        spec_plain_name("out"@),
        spec_plain_name("rnd"@),
        spec_plain_name("rnd_b"@),
        spec_plain_name("rnd_f"@),
        forall|j: int| 0 <= j < "true"@.len() ==> spec_is_word(#[trigger] "true"@[j]),
        forall|j: int| 0 <= j < "false"@.len() ==> spec_is_word(#[trigger] "false"@[j]),
        forall|j: int| 0 <= j < "break"@.len() ==> spec_is_word(#[trigger] "break"@[j]),
        forall|j: int| 0 <= j < "return"@.len() ==> spec_is_word(#[trigger] "return"@[j]),
        forall|j: int| 0 <= j < "int"@.len() ==> spec_is_word(#[trigger] "int"@[j]),
        "true"@.len() > 0 && spec_is_alpha("true"@[0]),
        "false"@.len() > 0 && spec_is_alpha("false"@[0]),
        "break"@.len() > 0 && spec_is_alpha("break"@[0]),
        "return"@.len() > 0 && spec_is_alpha("return"@[0]),
        "int"@.len() > 0 && spec_is_alpha("int"@[0]),
{
    reveal_strlit("while");
    reveal_strlit("do");
    reveal_strlit("print");
    reveal_strlit("input");
    reveal_strlit("int");
    reveal_strlit("return");
    reveal_strlit("if");
    reveal_strlit("else");
    reveal_strlit("break");
    reveal_strlit("true");
    reveal_strlit("false");
    reveal_strlit("fn");
    reveal_strlit("in");
    reveal_strlit("out");
    reveal_strlit("rnd");
    reveal_strlit("rnd_b");
    reveal_strlit("rnd_f");
    assert("int"@[0] != "while"@[0]);
    assert("int"@[0] != "do"@[0]);
    assert("int"@[0] != "print"@[0]);
    assert("int"@[2] != "input"@[2]);
    assert("true"@[0] != "else"@[0]);
    assert("false"@[0] != "while"@[0]);
    assert("false"@[0] != "print"@[0]);
    assert("false"@[0] != "input"@[0]);
    assert("false"@[0] != "break"@[0]);
    assert("break"@[0] != "while"@[0]);
    assert("break"@[0] != "print"@[0]);
    assert("break"@[0] != "input"@[0]);
    assert("in"@[0] != "do"@[0]);
    assert("in"@[1] != "if"@[1]);
    assert("in"@[0] != "fn"@[0]);
    assert("out"@[0] != "int"@[0]);
    assert("rnd"@[0] != "int"@[0]);
    assert("rnd_b"@[0] != "while"@[0]);
    assert("rnd_b"@[0] != "print"@[0]);
    assert("rnd_b"@[0] != "input"@[0]);
    assert("rnd_b"@[0] != "break"@[0]);
    assert("rnd_b"@[0] != "false"@[0]);
    assert("rnd_f"@[0] != "while"@[0]);
    assert("rnd_f"@[0] != "print"@[0]);
    assert("rnd_f"@[0] != "input"@[0]);
    assert("rnd_f"@[0] != "break"@[0]);
    assert("rnd_f"@[0] != "false"@[0]);
}

proof fn lemma_sub_split(s: Seq<char>, i: int, a: Seq<char>, b: Seq<char>)
    requires
        0 <= i,
        i + a.len() + b.len() <= s.len(),
        s.subrange(i, i + a.len() + b.len()) == a + b,
    ensures
        s.subrange(i, i + a.len()) == a,
        s.subrange(i + a.len(), i + a.len() + b.len()) == b,
{
    assert forall|k: int| 0 <= k < a.len() implies s.subrange(i, i + a.len())[k] == a[k] by {
        assert(s.subrange(i, i + a.len() + b.len())[k] == (a + b)[k]);
    }
    assert forall|k: int| 0 <= k < b.len() implies s.subrange(i + a.len(), i + a.len() + b.len())[k]
        == b[k] by {
        assert(s.subrange(i, i + a.len() + b.len())[a.len() + k] == (a + b)[a.len() + k]);
        assert(s.subrange(i, i + a.len() + b.len())[a.len() + k] == s[i + (a.len() + k)]);
        assert(s.subrange(i + a.len(), i + a.len() + b.len())[k] == s[i + a.len() + k]);
    }
    assert(s.subrange(i, i + a.len()) =~= a);
    assert(s.subrange(i + a.len(), i + a.len() + b.len()) =~= b);
}

proof fn lemma_sub_char(s: Seq<char>, i: int, a: Seq<char>, k: int)
    requires
        0 <= i,
        i + a.len() <= s.len(),
        s.subrange(i, i + a.len()) == a,
        0 <= k < a.len(),
    ensures
        s[i + k] == a[k],
{
    assert(s.subrange(i, i + a.len())[k] == s[i + k]);
}

/// The line and column reached from `(line, column)` at `i` when lexing has come to `j`.
pub open spec fn spec_reached(s: Seq<char>, i: nat, line: nat, column: nat, j: nat) -> (nat, nat) {
    spec_advance(line, column, s.subrange(i as int, j as int))
}

/// A printed readable choice, followed by no word character, lexes as its token.
proof fn lemma_lex_choice(s: Seq<char>, i: nat, line: nat, column: nat, c: SpecChoice)
    requires
        spec_choice_readable(c),
        i + spec_choice_text(c).len() < s.len(),
        s.subrange(i as int, (i + spec_choice_text(c).len()) as int) == spec_choice_text(c),
        !spec_is_word(s[(i + spec_choice_text(c).len()) as int]),
    ensures
        spec_lexes(s, i, line, column, i + spec_choice_text(c).len(), seq![spec_choice_kind(c)]),
{
    lemma_printed_words();
    match c {
        SpecChoice::Constant(Constant::Integer(n)) => {
            lemma_lex_digits(s, i, line, column, n as nat);
        },
        SpecChoice::Constant(Constant::Boolean(b)) => {
            if b {
                lemma_lex_word(s, i, line, column, "true"@);
            } else {
                lemma_lex_word(s, i, line, column, "false"@);
            }
        },
        SpecChoice::Exception(SpecException::Skip) => {
            reveal_strlit("#");
            lemma_sub_char(s, i as int, "#"@, 0);
            lemma_lex_single(s, i, line, column);
        },
        SpecChoice::Exception(SpecException::Break) => {
            lemma_lex_word(s, i, line, column, "break"@);
        },
        SpecChoice::Exception(SpecException::Return) => {
            lemma_lex_word(s, i, line, column, "return"@);
        },
        _ => {},
    }
}

/// The printed name of a readable location other than the main one, followed by no word
/// character, lexes as that name.
proof fn lemma_lex_location(s: Seq<char>, i: nat, line: nat, column: nat, l: SpecLocation)
    requires
        l != SpecLocation::Main,
        spec_location_readable(l),
        i + spec_location_text(l).len() < s.len(),
        s.subrange(i as int, (i + spec_location_text(l).len()) as int) == spec_location_text(l),
        !spec_is_word(s[(i + spec_location_text(l).len()) as int]),
    ensures
        spec_plain_name(spec_location_text(l)),
        spec_lexes(s, i, line, column, i + spec_location_text(l).len(), spec_location_kinds(l)),
{
    lemma_printed_words();
    lemma_lex_name(s, i, line, column, spec_location_text(l));
}

/// A printed primitive that a stop character follows lexes as its token.
proof fn lemma_lex_special(s: Seq<char>, i: nat, line: nat, column: nat, sp: Special)
    requires
        i + spec_special_text(sp).len() < s.len(),
        s.subrange(i as int, (i + spec_special_text(sp).len()) as int) == spec_special_text(sp),
        spec_is_stop(s[(i + spec_special_text(sp).len()) as int]),
    ensures
        spec_lexes(s, i, line, column, i + spec_special_text(sp).len(), seq![spec_special_kind(sp)]),
{
    match sp {
        Special::LogicOr => {
            reveal_strlit("||");
            lemma_sub_char(s, i as int, "||"@, 0);
            lemma_sub_char(s, i as int, "||"@, 1);
            lemma_lexes_one(s, i, line, column, SpecTokenType::Or, 2);
        },
        Special::LogicAnd => {
            reveal_strlit("&&");
            lemma_sub_char(s, i as int, "&&"@, 0);
            lemma_sub_char(s, i as int, "&&"@, 1);
            lemma_lexes_one(s, i, line, column, SpecTokenType::And, 2);
        },
        Special::LogicNot => {
            reveal_strlit("!");
            lemma_sub_char(s, i as int, "!"@, 0);
            lemma_lexes_one(s, i, line, column, SpecTokenType::Not, 1);
        },
        Special::Equal => {
            reveal_strlit("==");
            lemma_sub_char(s, i as int, "=="@, 0);
            lemma_sub_char(s, i as int, "=="@, 1);
            lemma_lexes_one(s, i, line, column, SpecTokenType::Equal, 2);
        },
        Special::NotEqual => {
            reveal_strlit("!=");
            lemma_sub_char(s, i as int, "!="@, 0);
            lemma_sub_char(s, i as int, "!="@, 1);
            lemma_lexes_one(s, i, line, column, SpecTokenType::NotEqual, 2);
        },
        Special::LessThan => {
            reveal_strlit("<");
            lemma_sub_char(s, i as int, "<"@, 0);
            lemma_lexes_one(s, i, line, column, SpecTokenType::LAngleBracket, 1);
        },
        Special::GreaterThan => {
            reveal_strlit(">");
            lemma_sub_char(s, i as int, ">"@, 0);
            lemma_lexes_one(s, i, line, column, SpecTokenType::RAngleBracket, 1);
        },
        Special::LessThanEqual => {
            reveal_strlit("<=");
            lemma_sub_char(s, i as int, "<="@, 0);
            lemma_sub_char(s, i as int, "<="@, 1);
            lemma_lexes_one(s, i, line, column, SpecTokenType::LessThanEqual, 2);
        },
        Special::GreaterThanEqual => {
            reveal_strlit(">=");
            lemma_sub_char(s, i as int, ">="@, 0);
            lemma_sub_char(s, i as int, ">="@, 1);
            lemma_lexes_one(s, i, line, column, SpecTokenType::GreaterThanEqual, 2);
        },
        Special::Addition => {
            reveal_strlit("+");
            lemma_sub_char(s, i as int, "+"@, 0);
            lemma_lexes_one(s, i, line, column, SpecTokenType::Plus, 1);
        },
        Special::Subraction => {
            reveal_strlit("-");
            lemma_sub_char(s, i as int, "-"@, 0);
            lemma_lexes_one(s, i, line, column, SpecTokenType::Minus, 1);
        },
        Special::Multiplication => {
            reveal_strlit("*");
            lemma_sub_char(s, i as int, "*"@, 0);
            lemma_lexes_one(s, i, line, column, SpecTokenType::Star, 1);
        },
        Special::Division => {
            reveal_strlit("/");
            lemma_sub_char(s, i as int, "/"@, 0);
            lemma_lexes_one(s, i, line, column, SpecTokenType::Divide, 1);
        },
        Special::Modulo => {
            reveal_strlit("%");
            lemma_sub_char(s, i as int, "%"@, 0);
            lemma_lexes_one(s, i, line, column, SpecTokenType::Modulo, 1);
        },
        Special::IntCast => {
            lemma_printed_words();
            lemma_lex_word(s, i, line, column, "int"@);
        },
    }
}

/// The printed text of a readable term, followed by a stop character, lexes as the term's
/// tokens.
proof fn lemma_lex_text(s: Seq<char>, i: nat, line: nat, column: nat, t: SpecTerm, prec: nat)
    requires
        spec_readable(t),
        prec <= 2,
        i + spec_term_text(t, prec).len() < s.len(),
        s.subrange(i as int, (i + spec_term_text(t, prec).len()) as int) == spec_term_text(t, prec),
        spec_is_stop(s[(i + spec_term_text(t, prec).len()) as int]),
    ensures
        spec_lexes(s, i, line, column, i + spec_term_text(t, prec).len(), spec_term_kinds(t, prec)),
    decreases t, prec, 1nat,
{
    let n = spec_term_text(t, prec).len();
    match t {
        SpecTerm::Variable { name } => {
            lemma_lex_name(s, i, line, column, name);
        },
        SpecTerm::Choice(c) => {
            lemma_lex_choice(s, i, line, column, c);
        },
        SpecTerm::Special(sp) => {
            lemma_lex_special(s, i, line, column, sp);
        },
        SpecTerm::Loop { term, branch } => {
            let a = spec_term_text(*term, 2);
            let caret = "^"@;
            let ct = spec_choice_text(branch);
            assert(spec_term_text(t, prec) == a + caret + ct);
            reveal_strlit("^");
            lemma_sub_split(s, i as int, a + caret, ct);
            lemma_sub_split(s, i as int, a, caret);
            let j1 = i + a.len();
            lemma_sub_char(s, j1 as int, caret, 0);
            lemma_lex_text(s, i, line, column, *term, 2);
            let (l1, c1) = spec_reached(s, i, line, column, j1);
            lemma_lex_single(s, j1, l1, c1);
            lemma_lexes_trans(s, i, line, column, j1, spec_term_kinds(*term, 2), j1 + 1, seq![SpecTokenType::Caret]);
            let j2 = j1 + 1;
            let (l2, c2) = spec_reached(s, i, line, column, j2);
            lemma_lex_choice(s, j2, l2, c2, branch);
            lemma_lexes_trans(s, i, line, column, j2, spec_term_kinds(*term, 2) + seq![SpecTokenType::Caret], j2 + ct.len(), seq![spec_choice_kind(branch)]);
            assert(spec_term_kinds(*term, 2) + seq![SpecTokenType::Caret] + seq![spec_choice_kind(branch)]
                =~= spec_term_kinds(t, prec));
        },
        SpecTerm::Case { .. } => {
            lemma_lex_case(s, i, line, column, t, prec);
        },
        SpecTerm::Abstraction { .. } => {
            lemma_lex_abstraction(s, i, line, column, t, prec);
        },
        SpecTerm::Application { .. } => {
            lemma_lex_application(s, i, line, column, t, prec);
        },
        SpecTerm::Operation(_) => {},
    }
}

#[verifier::rlimit(50)]
proof fn lemma_lex_case(s: Seq<char>, i: nat, line: nat, column: nat, t: SpecTerm, prec: nat)
    requires
        t is Case,
        spec_readable(t),
        prec <= 2,
        i + spec_term_text(t, prec).len() < s.len(),
        s.subrange(i as int, (i + spec_term_text(t, prec).len()) as int) == spec_term_text(t, prec),
        spec_is_stop(s[(i + spec_term_text(t, prec).len()) as int]),
    ensures
        spec_lexes(s, i, line, column, i + spec_term_text(t, prec).len(), spec_term_kinds(t, prec)),
    decreases t, prec, 0nat,
{
    let n = spec_term_text(t, prec).len();
    match t {
        SpecTerm::Case { term, exit, then } => {
            if prec > 1 {
                let open = "("@;
                let close = ")"@;
                let inner = spec_term_text(t, 1);
                reveal_strlit("(");
                reveal_strlit(")");
                assert(spec_term_text(t, prec) == open + inner + close);
                lemma_sub_split(s, i as int, open + inner, close);
                lemma_sub_split(s, i as int, open, inner);
                lemma_sub_char(s, i as int, open, 0);
                lemma_sub_char(s, (i + 1 + inner.len()) as int, close, 0);
                lemma_lex_single(s, i, line, column);
                let (l1, c1) = spec_reached(s, i, line, column, i + 1);
                lemma_lex_text(s, i + 1, l1, c1, t, 1);
                lemma_lexes_trans(s, i, line, column, i + 1, seq![SpecTokenType::LParen], i + 1 + inner.len(), spec_term_kinds(t, 1));
                let j = i + 1 + inner.len();
                let (l2, c2) = spec_reached(s, i, line, column, j);
                lemma_lex_single(s, j, l2, c2);
                lemma_lexes_trans(s, i, line, column, j, seq![SpecTokenType::LParen] + spec_term_kinds(t, 1), j + 1, seq![SpecTokenType::RParen]);
            } else {
                let a = spec_term_text(*term, 2);
                let semi = ";"@;
                let arrow = "->"@;
                let mid = if exit != spec_skip() {
                    spec_choice_text(exit) + arrow
                } else {
                    Seq::<char>::empty()
                };
                let b = spec_term_text(*then, 1);
                reveal_strlit(";");
                reveal_strlit("->");
                assert(spec_term_text(t, prec) == a + semi + mid + b);
                lemma_sub_split(s, i as int, a + semi + mid, b);
                lemma_sub_split(s, i as int, a + semi, mid);
                lemma_sub_split(s, i as int, a, semi);
                let j1 = i + a.len();
                lemma_sub_char(s, j1 as int, semi, 0);
                lemma_lex_text(s, i, line, column, *term, 2);
                let (l1, c1) = spec_reached(s, i, line, column, j1);
                lemma_lex_single(s, j1, l1, c1);
                let ka = spec_term_kinds(*term, 2);
                lemma_lexes_trans(s, i, line, column, j1, ka, j1 + 1, seq![SpecTokenType::SemiColon]);
                let j2 = j1 + 1;
                let kmid = if exit != spec_skip() {
                    seq![spec_choice_kind(exit), SpecTokenType::Arrow]
                } else {
                    Seq::<SpecTokenType>::empty()
                };
                let j3 = j2 + mid.len();
                if exit != spec_skip() {
                    let ct = spec_choice_text(exit);
                    lemma_sub_split(s, j2 as int, ct, arrow);
                    let ja = j2 + ct.len();
                    lemma_sub_char(s, ja as int, arrow, 0);
                    lemma_sub_char(s, ja as int, arrow, 1);
                    let (l2, c2) = spec_reached(s, i, line, column, j2);
                    lemma_lex_choice(s, j2, l2, c2, exit);
                    lemma_lexes_trans(s, i, line, column, j2, ka + seq![SpecTokenType::SemiColon], ja, seq![spec_choice_kind(exit)]);
                    let (l3, c3) = spec_reached(s, i, line, column, ja);
                    lemma_lexes_one(s, ja, l3, c3, SpecTokenType::Arrow, 2);
                    lemma_lexes_trans(s, i, line, column, ja, ka + seq![SpecTokenType::SemiColon] + seq![spec_choice_kind(exit)], ja + 2, seq![SpecTokenType::Arrow]);
                    assert(ka + seq![SpecTokenType::SemiColon] + seq![spec_choice_kind(exit)] + seq![SpecTokenType::Arrow]
                        =~= ka + seq![SpecTokenType::SemiColon] + kmid);
                } else {
                    assert(ka + seq![SpecTokenType::SemiColon] + kmid =~= ka + seq![SpecTokenType::SemiColon]);
                }
                let (l4, c4) = spec_reached(s, i, line, column, j3);
                lemma_lex_text(s, j3, l4, c4, *then, 1);
                lemma_lexes_trans(s, i, line, column, j3, ka + seq![SpecTokenType::SemiColon] + kmid, j3 + b.len(), spec_term_kinds(*then, 1));
            }
        },
        _ => {},
    }
}

proof fn lemma_lex_abstraction(s: Seq<char>, i: nat, line: nat, column: nat, t: SpecTerm, prec: nat)
    requires
        t is Abstraction,
        spec_readable(t),
        prec <= 2,
        i + spec_term_text(t, prec).len() < s.len(),
        s.subrange(i as int, (i + spec_term_text(t, prec).len()) as int) == spec_term_text(t, prec),
        spec_is_stop(s[(i + spec_term_text(t, prec).len()) as int]),
    ensures
        spec_lexes(s, i, line, column, i + spec_term_text(t, prec).len(), spec_term_kinds(t, prec)),
    decreases t, prec, 0nat,
{
    match t {
        SpecTerm::Abstraction { binds, term, location } => {
            let lt = if location == SpecLocation::Main {
                Seq::<char>::empty()
            } else {
                spec_location_text(location)
            };
            let open = "<"@;
            let close = ">."@;
            let body = spec_term_text(*term, 2);
            reveal_strlit("<");
            reveal_strlit(">.");
            assert(spec_term_text(t, prec) == lt + open + binds + close + body) by {
                if location == SpecLocation::Main {
                    assert(lt + open =~= open);
                }
            }
            lemma_sub_split(s, i as int, lt + open + binds + close, body);
            lemma_sub_split(s, i as int, lt + open + binds, close);
            lemma_sub_split(s, i as int, lt + open, binds);
            lemma_sub_split(s, i as int, lt, open);
            let kl = spec_location_kinds(location);
            let j1 = i + lt.len();
            lemma_sub_char(s, j1 as int, open, 0);
            lemma_sub_char(s, (j1 + 1) as int, binds, 0);
            if location != SpecLocation::Main {
                lemma_lex_location(s, i, line, column, location);
            } else {
                assert(s.subrange(i as int, i as int) =~= Seq::<char>::empty());
                assert(spec_lexes(s, i, line, column, i, kl));
            }
            let (l1, c1) = spec_reached(s, i, line, column, j1);
            lemma_lexes_one(s, j1, l1, c1, SpecTokenType::LAngleBracket, 1);
            lemma_lexes_trans(s, i, line, column, j1, kl, j1 + 1, seq![SpecTokenType::LAngleBracket]);
            let j2 = j1 + 1;
            let j3 = j2 + binds.len();
            lemma_sub_char(s, j3 as int, close, 0);
            lemma_sub_char(s, j3 as int, close, 1);
            let (l2, c2) = spec_reached(s, i, line, column, j2);
            lemma_lex_name(s, j2, l2, c2, binds);
            let k2 = kl + seq![SpecTokenType::LAngleBracket];
            lemma_lexes_trans(s, i, line, column, j2, k2, j3, seq![SpecTokenType::Identifier(binds)]);
            let k3 = k2 + seq![SpecTokenType::Identifier(binds)];
            let (l3, c3) = spec_reached(s, i, line, column, j3);
            lemma_lexes_one(s, j3, l3, c3, SpecTokenType::RAngleBracket, 1);
            lemma_lexes_trans(s, i, line, column, j3, k3, j3 + 1, seq![SpecTokenType::RAngleBracket]);
            let k4 = k3 + seq![SpecTokenType::RAngleBracket];
            let (l4, c4) = spec_reached(s, i, line, column, j3 + 1);
            lemma_lex_single(s, j3 + 1, l4, c4);
            lemma_lexes_trans(s, i, line, column, j3 + 1, k4, j3 + 2, seq![SpecTokenType::Dot]);
            let k5 = k4 + seq![SpecTokenType::Dot];
            let j5 = j3 + 2;
            let (l5, c5) = spec_reached(s, i, line, column, j5);
            lemma_lex_text(s, j5, l5, c5, *term, 2);
            lemma_lexes_trans(s, i, line, column, j5, k5, j5 + body.len(), spec_term_kinds(*term, 2));
            assert(k5 + spec_term_kinds(*term, 2) =~= spec_term_kinds(t, prec));
        },
        _ => {},
    }
}

proof fn lemma_lex_application(s: Seq<char>, i: nat, line: nat, column: nat, t: SpecTerm, prec: nat)
    requires
        t is Application,
        spec_readable(t),
        prec <= 2,
        i + spec_term_text(t, prec).len() < s.len(),
        s.subrange(i as int, (i + spec_term_text(t, prec).len()) as int) == spec_term_text(t, prec),
        spec_is_stop(s[(i + spec_term_text(t, prec).len()) as int]),
    ensures
        spec_lexes(s, i, line, column, i + spec_term_text(t, prec).len(), spec_term_kinds(t, prec)),
    decreases t, prec, 0nat,
{
    match t {
        SpecTerm::Application { function, argument, location } => {
            let open = "["@;
            let close = "]"@;
            let dot = "."@;
            let a = spec_term_text(*argument, 0);
            let lt = if location != SpecLocation::Main {
                spec_location_text(location)
            } else {
                Seq::<char>::empty()
            };
            let f = spec_term_text(*function, 2);
            reveal_strlit("[");
            reveal_strlit("]");
            reveal_strlit(".");
            assert(spec_term_text(t, prec) == open + a + close + lt + dot + f);
            lemma_sub_split(s, i as int, open + a + close + lt + dot, f);
            lemma_sub_split(s, i as int, open + a + close + lt, dot);
            lemma_sub_split(s, i as int, open + a + close, lt);
            lemma_sub_split(s, i as int, open + a, close);
            lemma_sub_split(s, i as int, open, a);
            lemma_sub_char(s, i as int, open, 0);
            lemma_lex_single(s, i, line, column);
            let ja = i + 1;
            let jc = ja + a.len();
            lemma_sub_char(s, jc as int, close, 0);
            let (l1, c1) = spec_reached(s, i, line, column, ja);
            lemma_lex_text(s, ja, l1, c1, *argument, 0);
            lemma_lexes_trans(s, i, line, column, ja, seq![SpecTokenType::LBracket], jc, spec_term_kinds(*argument, 0));
            let k2 = seq![SpecTokenType::LBracket] + spec_term_kinds(*argument, 0);
            let (l2, c2) = spec_reached(s, i, line, column, jc);
            lemma_lex_single(s, jc, l2, c2);
            lemma_lexes_trans(s, i, line, column, jc, k2, jc + 1, seq![SpecTokenType::RBracket]);
            let k3 = k2 + seq![SpecTokenType::RBracket];
            let jl = jc + 1;
            let jd = jl + lt.len();
            lemma_sub_char(s, jd as int, dot, 0);
            let kl = spec_location_kinds(location);
            let (l3, c3) = spec_reached(s, i, line, column, jl);
            if location != SpecLocation::Main {
                lemma_lex_location(s, jl, l3, c3, location);
            } else {
                assert(s.subrange(jl as int, jl as int) =~= Seq::<char>::empty());
                assert(spec_lexes(s, jl, l3, c3, jl, kl));
            }
            lemma_lexes_trans(s, i, line, column, jl, k3, jd, kl);
            let k4 = k3 + kl;
            let (l4, c4) = spec_reached(s, i, line, column, jd);
            lemma_lex_single(s, jd, l4, c4);
            lemma_lexes_trans(s, i, line, column, jd, k4, jd + 1, seq![SpecTokenType::Dot]);
            let k5 = k4 + seq![SpecTokenType::Dot];
            let jf = jd + 1;
            let (l5, c5) = spec_reached(s, i, line, column, jf);
            lemma_lex_text(s, jf, l5, c5, *function, 2);
            lemma_lexes_trans(s, i, line, column, jf, k5, jf + f.len(), spec_term_kinds(*function, 2));
            assert(k5 + spec_term_kinds(*function, 2) =~= spec_term_kinds(t, prec));
        },
        _ => {},
    }
}

proof fn lemma_lexes_space(s: Seq<char>, i: nat, line: nat, column: nat)
    requires
        i < s.len(),
        s[i as int] == ' ',
    ensures
        spec_lexes(s, i, line, column, i + 1, Seq::empty()),
{
    let (l2, c2) = spec_reached(s, i, line, column, i + 1);
    assert(spec_scan(s, i as int) == Some((SpecScan::Skip, 1nat)));
    match spec_lex(s, i + 1, l2, c2) {
        None => {},
        Some((rest, errors)) => {
            assert forall|k: int| 0 <= k < rest.len() implies spec_lex(s, i, line, column).unwrap().0[0 + k]
                == #[trigger] rest[k] by {}
        },
    }
}

proof fn lemma_reread_without_operations(t: SpecTerm)
    requires
        spec_readable(t),
    ensures
        spec_no_ops(spec_reread(t)),
    decreases t,
{
    match t {
        SpecTerm::Abstraction { term, .. } => lemma_reread_without_operations(*term),
        SpecTerm::Application { function, argument, .. } => {
            lemma_reread_without_operations(*function);
            lemma_reread_without_operations(*argument);
        },
        SpecTerm::Case { term, then, .. } => {
            lemma_reread_without_operations(*term);
            lemma_reread_without_operations(*then);
        },
        SpecTerm::Loop { term, .. } => lemma_reread_without_operations(*term),
        _ => {},
    }
}

/// A unary expression that a `;` follows is a whole binary expression at every level.
proof fn lemma_binary_of_unary(ts: Seq<SpecToken>, p: SpecParser, k: nat, x: SpecTerm, q: SpecParser)
    requires
        k <= 5,
        rule_unary(ts, p) == Some((Ok::<SpecTerm, SpecParserError>(x), q)),
        p.index <= q.index < ts.len(),
        ts[q.index].token_type == SpecTokenType::SemiColon,
    ensures
        rule_binary(ts, p, k) == Some((Ok::<SpecTerm, SpecParserError>(x), q)),
    decreases 5 - k,
{
    if k < 5 {
        lemma_binary_of_unary(ts, p, k + 1, x, q);
    }
    assert(rule_operand(ts, p, k) == Some((Ok::<SpecTerm, SpecParserError>(x), q)));
    assert(spec_binary_op(k, SpecTokenType::SemiColon) is None);
}

/// The source of a program whose one statement is a printed term: `\ text \;`.
pub open spec fn spec_embedded_source(t: SpecTerm) -> Seq<char> {
    "\\ "@ + spec_term_text(t, 0) + " \\;"@
}

/// The tokens of `\ text \;`: a backslash, the printed term's tokens, a backslash, `;`
/// and the end; no lexical error.
proof fn lemma_tokenise_embedded(t: SpecTerm)
    requires
        spec_readable(t),
    ensures
        ({
            let k = spec_term_kinds(t, 0);
            spec_tokenise(spec_embedded_source(t)) matches Some((ts, errors)) && {
                &&& errors.len() == 0
                &&& ts.len() == k.len() + 4
                &&& ts[0].token_type == SpecTokenType::Backslash
                &&& spec_kinds_at(ts, 1, k)
                &&& ts[k.len() + 1 as int].token_type == SpecTokenType::Backslash
                &&& ts[k.len() + 2 as int].token_type == SpecTokenType::SemiColon
                &&& ts[k.len() + 3 as int].token_type == SpecTokenType::EOF
            }
        }),
{
    let text = spec_term_text(t, 0);
    let k = spec_term_kinds(t, 0);
    let pre = "\\ "@;
    let post = " \\;"@;
    reveal_strlit("\\ ");
    reveal_strlit(" \\;");
    let s = pre + text + post;
    assert(s == spec_embedded_source(t));
    let m = text.len();
    assert(s.len() == m + 5);
    assert(s[0] == '\\');
    assert(s[1] == ' ');
    assert(s[2 + m as int] == ' ');
    assert(s[3 + m as int] == '\\');
    assert(s[4 + m as int] == ';');
    assert(s.subrange(2, 2 + m as int) =~= text);
    lemma_lex_single(s, 0, 1, 1);
    let (l1, c1) = spec_reached(s, 0, 1, 1, 1);
    lemma_lexes_space(s, 1, l1, c1);
    let k1 = seq![SpecTokenType::Backslash];
    lemma_lexes_trans(s, 0, 1, 1, 1, k1, 2, Seq::empty());
    let k2 = k1 + Seq::<SpecTokenType>::empty();
    let (l2, c2) = spec_reached(s, 0, 1, 1, 2);
    lemma_lex_text(s, 2, l2, c2, t, 0);
    lemma_lexes_trans(s, 0, 1, 1, 2, k2, 2 + m, k);
    let k3 = k2 + k;
    let (l3, c3) = spec_reached(s, 0, 1, 1, 2 + m);
    lemma_lexes_space(s, 2 + m, l3, c3);
    lemma_lexes_trans(s, 0, 1, 1, 2 + m, k3, 3 + m, Seq::empty());
    let k4 = k3 + Seq::<SpecTokenType>::empty();
    let (l4, c4) = spec_reached(s, 0, 1, 1, 3 + m);
    lemma_lex_single(s, 3 + m, l4, c4);
    lemma_lexes_trans(s, 0, 1, 1, 3 + m, k4, 4 + m, seq![SpecTokenType::Backslash]);
    let k5 = k4 + seq![SpecTokenType::Backslash];
    let (l5, c5) = spec_reached(s, 0, 1, 1, 4 + m);
    lemma_lex_single(s, 4 + m, l5, c5);
    lemma_lexes_trans(s, 0, 1, 1, 4 + m, k5, 5 + m, seq![SpecTokenType::SemiColon]);
    let k6 = k5 + seq![SpecTokenType::SemiColon];
    assert(k6 =~= seq![SpecTokenType::Backslash] + k + seq![SpecTokenType::Backslash, SpecTokenType::SemiColon]);
    let (l6, c6) = spec_reached(s, 0, 1, 1, 5 + m);
    let (ts, errors) = spec_lex(s, 0, 1, 1).unwrap();
    let rest = spec_lex(s, 5 + m, l6, c6).unwrap().0;
    assert(rest.len() == 1 && rest[0].token_type == SpecTokenType::EOF);
    assert(ts[k6.len() as int] == rest[0]);
    assert forall|j: int| 0 <= j < k.len() implies ts[1 + j].token_type == #[trigger] k[j] by {
        assert(ts[1 + j].token_type == k6[1 + j]);
    }
    assert(ts[0].token_type == k6[0]);
    assert(ts[k.len() + 1 as int].token_type == k6[k.len() + 1 as int]);
    assert(ts[k.len() + 2 as int].token_type == k6[k.len() + 2 as int]);
}

/// Reading the tokens of `\ text \;` as a program gives the printed term back.
proof fn lemma_parse_embedded(ts: Seq<SpecToken>, t: SpecTerm, n: u64)
    requires
        spec_readable(t),
        ts.len() == spec_term_kinds(t, 0).len() + 4,
        ts[0].token_type == SpecTokenType::Backslash,
        spec_kinds_at(ts, 1, spec_term_kinds(t, 0)),
        ts[spec_term_kinds(t, 0).len() + 1 as int].token_type == SpecTokenType::Backslash,
        ts[spec_term_kinds(t, 0).len() + 2 as int].token_type == SpecTokenType::SemiColon,
        ts[spec_term_kinds(t, 0).len() + 3 as int].token_type == SpecTokenType::EOF,
    ensures
        rule_program(ts, SpecParser { index: 0, functions: Seq::empty(), next_var: n }) == Some(
            (
                Ok::<SpecTerm, SpecParserError>(spec_reread(t)),
                SpecParser {
                    index: spec_term_kinds(t, 0).len() + 3 as int,
                    functions: Seq::empty(),
                    next_var: n,
                },
            ),
        ),
{
    let k = spec_term_kinds(t, 0);
    let x = spec_reread(t);
    let p0 = SpecParser { index: 0, functions: Seq::empty(), next_var: n };
    lemma_kinds_nonempty(t, 0);
    lemma_kinds_no_leading_arrow(t, 0);
    lemma_kind_at(ts, 1, k, 0);
    lemma_read_sequence(ts, spec_moved(p0, 1), t, 0);
    let q = spec_moved(p0, k.len() + 2 as int);
    assert(rule_embedded_fmc(ts, p0) == Some((Ok::<SpecTerm, SpecParserError>(x), q)));
    assert(rule_primary(ts, p0) == Some((Ok::<SpecTerm, SpecParserError>(x), q)));
    assert(rule_call(ts, p0) == Some((Ok::<SpecTerm, SpecParserError>(x), q)));
    assert(rule_unary(ts, p0) == Some((Ok::<SpecTerm, SpecParserError>(x), q)));
    lemma_binary_of_unary(ts, p0, 0, x, q);
    assert(rule_assignment(ts, p0) == Some((Ok::<SpecTerm, SpecParserError>(x), q)));
    assert(rule_expression(ts, p0) == Some((Ok::<SpecTerm, SpecParserError>(x), q)));
    let q1 = spec_moved(p0, k.len() + 3 as int);
    assert(rule_expr_stmt(ts, p0) == Some((Ok::<SpecTerm, SpecParserError>(x), q1)));
    assert(rule_statement(ts, p0) == Some((Ok::<SpecTerm, SpecParserError>(x), q1)));
    assert(rule_program_rest(ts, q1, seq![x]) == Some((Ok::<Seq<SpecTerm>, SpecParserError>(seq![x]), q1)));
    assert(Seq::<SpecTerm>::empty().push(x) == seq![x]);
    assert(rule_program_rest(ts, p0, Seq::empty()) == Some((Ok::<Seq<SpecTerm>, SpecParserError>(seq![x]), q1)));
    assert(spec_fold_statements(seq![x]) == x);
    assert(spec_link_functions(x, q1.functions, q1.next_var) == Some((x, n)));
}

/// Printing a raw FMC term into the program `\ text \;` and compiling that program (without
/// reduction) gives the term back, each location read back from its printed name, and
/// takes no fresh names.
pub proof fn lemma_printed_term_compiles_back(t: SpecTerm, n: u64)
    requires
        spec_readable(t),
    ensures
        spec_compile(spec_embedded_source(t), false, n) == Some(
            (Ok::<SpecTerm, SpecCompileError>(spec_reread(t)), n),
        ),
{
    lemma_tokenise_embedded(t);
    let (ts, errors) = spec_tokenise(spec_embedded_source(t)).unwrap();
    lemma_parse_embedded(ts, t, n);
    lemma_reread_without_operations(t);
    lemma_expand_operations_without_operations(spec_reread(t), n);
}

/// A location that its printed name stands for: the main location, a stream read back by
/// its name (`in`, `out`, `rnd_b`, `rnd_f`), or a cell whose name names no stream.
pub open spec fn spec_location_canonical(l: SpecLocation) -> bool {
    match l {
        SpecLocation::Cell(name) => name != "in"@ && name != "out"@ && name != "rnd_b"@ && name
            != "rnd_f"@,
        SpecLocation::Stack(_) => false,
        SpecLocation::Local(_) => false,
        SpecLocation::Rnd => false,
        _ => true,
    }
}

/// Whether every location of a term is canonical.
pub open spec fn spec_locations_canonical(t: SpecTerm) -> bool
    decreases t,
{
    match t {
        SpecTerm::Abstraction { term, location, .. } => spec_location_canonical(location)
            && spec_locations_canonical(*term),
        SpecTerm::Application { function, argument, location } => spec_location_canonical(
            location,
        ) && spec_locations_canonical(*function) && spec_locations_canonical(*argument),
        SpecTerm::Case { term, then, .. } => spec_locations_canonical(*term)
            && spec_locations_canonical(*then),
        SpecTerm::Loop { term, .. } => spec_locations_canonical(*term),
        _ => true,
    }
}

proof fn lemma_reread_location_canonical(l: SpecLocation)
    requires
        spec_location_canonical(l),
    ensures
        spec_reread_location(l) == l,
{
    reveal_strlit("in");
    reveal_strlit("out");
    reveal_strlit("rnd_b");
    reveal_strlit("rnd_f");
    assert("out"@[0] != "in"@[0]);
    assert("rnd_b"@[0] != "in"@[0]);
    assert("rnd_b"@[0] != "out"@[0]);
    assert("rnd_f"@[0] != "in"@[0]);
    assert("rnd_f"@[0] != "out"@[0]);
    assert("rnd_f"@[4] != "rnd_b"@[4]);
}

/// Reading back the locations of a term whose locations are all canonical changes nothing.
proof fn lemma_reread_canonical(t: SpecTerm)
    requires
        spec_locations_canonical(t),
    ensures
        spec_reread(t) == t,
    decreases t,
{
    match t {
        SpecTerm::Abstraction { term, location, .. } => {
            lemma_reread_location_canonical(location);
            lemma_reread_canonical(*term);
        },
        SpecTerm::Application { function, argument, location } => {
            lemma_reread_location_canonical(location);
            lemma_reread_canonical(*function);
            lemma_reread_canonical(*argument);
        },
        SpecTerm::Case { term, then, .. } => {
            lemma_reread_canonical(*term);
            lemma_reread_canonical(*then);
        },
        SpecTerm::Loop { term, .. } => lemma_reread_canonical(*term),
        _ => {},
    }
}

/// Printing a raw FMC term whose locations are all canonical into the program `\ text \;`
/// and compiling that program (without reduction) gives exactly the term back.
pub proof fn lemma_printed_canonical_term_compiles_back(t: SpecTerm, n: u64)
    requires
        spec_readable(t),
        spec_locations_canonical(t),
    ensures
        spec_compile(spec_embedded_source(t), false, n) == Some(
            (Ok::<SpecTerm, SpecCompileError>(t), n),
        ),
{
    lemma_printed_term_compiles_back(t, n);
    lemma_reread_canonical(t);
}

} // verus!
