use vstd::prelude::*;

use crate::fmc_core::choice::{spec_skip, Constant, SpecChoice, SpecException};
use crate::fmc_core::location::SpecLocation;
use crate::fmc_core::special::Special;
use crate::fmc_core::term::{
    spec_as_expression, spec_expand, spec_expand_operations, spec_identity, spec_next,
    spec_relocate_term, spec_substitute, spec_var_name, spec_variable, spec_y, SpecOperation,
    SpecTerm,
};
use crate::text::spec_digits;
use crate::interpreter::token::{spec_is_choice, spec_kind_name, SpecToken, SpecTokenType};

verus! {

/// The value of a declared function while the program is read: its name, its parameters,
/// its body once read, and whether its body calls it.
pub struct SpecFunction {
    pub name: Seq<char>,
    pub parameters: Seq<Seq<char>>,
    pub term: Option<SpecTerm>,
    pub recurses: bool,
}

/// The state of the parser: the position in the token sequence, the functions declared so
/// far and the counter of fresh variable names.
pub struct SpecParser {
    pub index: int,
    pub functions: Seq<SpecFunction>,
    pub next_var: u64,
}

/// The value of a parse error: where it was found, what was expected and the token found.
pub struct SpecParserError {
    pub line: nat,
    pub column: nat,
    pub message: Seq<char>,
    pub found: SpecToken,
}

/// What a grammar rule gives from a state: its value or an error, with the state after it;
/// `None` where reading it would index past the tokens (the parser panics there).
pub type Parsed<T> = Option<(Result<T, SpecParserError>, SpecParser)>;

/// The token `n` places after the current one, if there is one.
pub open spec fn spec_peek(ts: Seq<SpecToken>, p: SpecParser, n: int) -> Option<SpecToken> {
    if 0 <= p.index + n < ts.len() {
        Some(ts[p.index + n])
    } else {
        None
    }
}

/// The current token, if there is one.
pub open spec fn spec_current(ts: Seq<SpecToken>, p: SpecParser) -> Option<SpecToken> {
    spec_peek(ts, p, 0)
}

/// The state one token further on.
pub open spec fn spec_advanced(p: SpecParser) -> SpecParser {
    SpecParser { index: p.index + 1, functions: p.functions, next_var: p.next_var }
}

/// The state with another counter of fresh names.
pub open spec fn spec_with_names(p: SpecParser, n: u64) -> SpecParser {
    SpecParser { index: p.index, functions: p.functions, next_var: n }
}

/// An error reported at a token.
pub open spec fn spec_error_at(t: SpecToken, message: Seq<char>) -> SpecParserError {
    SpecParserError { line: t.line, column: t.column, message, found: t }
}

/// Failing at the current token with a message.
pub open spec fn spec_fail<T>(ts: Seq<SpecToken>, p: SpecParser, message: Seq<char>) -> Parsed<T> {
    match spec_current(ts, p) {
        Some(t) => Some((Err(spec_error_at(t, message)), p)),
        None => None,
    }
}

/// The message of a failed `consume`: the rule's message and the kind that was expected.
pub open spec fn spec_expected(message: Seq<char>, tt: SpecTokenType) -> Seq<char> {
    message + "; expected "@ + spec_kind_name(tt)
}

/// Consuming a token of the given kind, or failing with the message.
pub open spec fn spec_consume(
    ts: Seq<SpecToken>,
    p: SpecParser,
    tt: SpecTokenType,
    message: Seq<char>,
) -> Parsed<SpecToken> {
    match spec_current(ts, p) {
        Some(t) => if t.token_type == tt {
            Some((Ok(t), spec_advanced(p)))
        } else {
            Some((Err(spec_error_at(t, spec_expected(message, tt))), p))
        },
        None => None,
    }
}

/// A rule's outcome where the state after it lies between `p` and the end of the tokens.
/// Every rule meets this; stating it lets the rules call one another on what is left.
pub open spec fn spec_after<T>(ts: Seq<SpecToken>, p: SpecParser, r: Parsed<T>) -> Parsed<T> {
    match r {
        Some((v, q)) => if p.index <= q.index <= ts.len() {
            r
        } else {
            None
        },
        None => None,
    }
}

/// Whether the current token has the given kind (`None` where there is no current token).
pub open spec fn spec_current_is(ts: Seq<SpecToken>, p: SpecParser, tt: SpecTokenType) -> Option<
    bool,
> {
    match spec_current(ts, p) {
        Some(t) => Some(t.token_type == tt),
        None => None,
    }
}

/// The choice a token kind stands for.
pub open spec fn spec_token_choice(tt: SpecTokenType) -> Option<SpecChoice> {
    match tt {
        SpecTokenType::Integer(n) => Some(SpecChoice::Constant(Constant::Integer(n))),
        SpecTokenType::True => Some(SpecChoice::Constant(Constant::Boolean(true))),
        SpecTokenType::False => Some(SpecChoice::Constant(Constant::Boolean(false))),
        SpecTokenType::Break => Some(SpecChoice::Exception(SpecException::Break)),
        SpecTokenType::Return => Some(SpecChoice::Exception(SpecException::Return)),
        SpecTokenType::Skip => Some(SpecChoice::Exception(SpecException::Skip)),
        _ => None,
    }
}

/// choice = NUMBER | "*" | true | false | break | return
pub open spec fn rule_choice(ts: Seq<SpecToken>, p: SpecParser) -> Parsed<SpecChoice> {
    match spec_current(ts, p) {
        Some(t) => match spec_token_choice(t.token_type) {
            Some(c) => Some((Ok(c), spec_advanced(p))),
            None => Some((Err(spec_error_at(t, "expected choice value"@)), p)),
        },
        None => None,
    }
}

/// The location a name stands for: `in`, `out`, `rnd_b` and `rnd_f` name streams, any
/// other name a cell.
pub open spec fn spec_named_location(name: Seq<char>) -> SpecLocation {
    if name == "in"@ {
        SpecLocation::Input
    } else if name == "out"@ {
        SpecLocation::Output
    } else if name == "rnd_b"@ {
        SpecLocation::RndBool
    } else if name == "rnd_f"@ {
        SpecLocation::RndFloat
    } else {
        SpecLocation::Cell(name)
    }
}

/// location = "_" | IDENT
pub open spec fn rule_location(ts: Seq<SpecToken>, p: SpecParser) -> Parsed<SpecLocation> {
    match spec_current(ts, p) {
        Some(t) => match t.token_type {
            SpecTokenType::Identifier(name) => Some((Ok(spec_named_location(name)), spec_advanced(p))),
            _ => Some((Err(spec_error_at(t, "expected location name"@)), p)),
        },
        None => None,
    }
}

/// The primitive that a token stands for where it is read as an FMC atom.
pub open spec fn spec_atom_special(tt: SpecTokenType) -> Option<Special> {
    match tt {
        SpecTokenType::RAngleBracket => Some(Special::GreaterThan),
        SpecTokenType::Or => Some(Special::LogicOr),
        SpecTokenType::And => Some(Special::LogicAnd),
        SpecTokenType::NotEqual => Some(Special::NotEqual),
        SpecTokenType::Equal => Some(Special::Equal),
        SpecTokenType::GreaterThanEqual => Some(Special::GreaterThanEqual),
        SpecTokenType::LessThanEqual => Some(Special::LessThanEqual),
        SpecTokenType::Plus => Some(Special::Addition),
        SpecTokenType::Minus => Some(Special::Subraction),
        SpecTokenType::Divide => Some(Special::Division),
        SpecTokenType::Modulo => Some(Special::Modulo),
        SpecTokenType::Not => Some(Special::LogicNot),
        SpecTokenType::Star => Some(Special::Multiplication),
        SpecTokenType::Int => Some(Special::IntCast),
        _ => None,
    }
}

/// sequence = loop_term (";" (choice "->")? sequence)?
pub open spec fn rule_sequence(ts: Seq<SpecToken>, p: SpecParser) -> Parsed<SpecTerm>
    decreases ts.len() - p.index, 4nat,
{
    match spec_after(ts, p, rule_loop_term(ts, p)) {
        Some((Ok(left), q)) => match spec_current(ts, q) {
            Some(t) => if t.token_type == SpecTokenType::SemiColon {
                let q1 = spec_advanced(q);
                match spec_current(ts, q1) {
                    Some(t1) => {
                        let labelled = if spec_is_choice(t1.token_type) {
                            match spec_peek(ts, q1, 1) {
                                Some(t2) => Some(t2.token_type == SpecTokenType::Arrow),
                                None => None,
                            }
                        } else {
                            Some(false)
                        };
                        match labelled {
                            Some(true) => match rule_choice(ts, q1) {
                                Some((Ok(exit), q2)) => match spec_consume(
                                    ts,
                                    q2,
                                    SpecTokenType::Arrow,
                                    "expected `->` after choice in case branch"@,
                                ) {
                                    Some((Ok(_), q3)) => match spec_after(
                                        ts,
                                        q3,
                                        rule_sequence(ts, q3),
                                    ) {
                                        Some((Ok(then), q4)) => Some(
                                            (
                                                Ok(
                                                    SpecTerm::Case {
                                                        term: Box::new(left),
                                                        exit,
                                                        then: Box::new(then),
                                                    },
                                                ),
                                                q4,
                                            ),
                                        ),
                                        Some((Err(e), q4)) => Some((Err(e), q4)),
                                        None => None,
                                    },
                                    Some((Err(e), q3)) => Some((Err(e), q3)),
                                    None => None,
                                },
                                Some((Err(e), q2)) => Some((Err(e), q2)),
                                None => None,
                            },
                            Some(false) => match spec_after(ts, q1, rule_sequence(ts, q1)) {
                                Some((Ok(then), q2)) => Some(
                                    (
                                        Ok(
                                            SpecTerm::Case {
                                                term: Box::new(left),
                                                exit: spec_skip(),
                                                then: Box::new(then),
                                            },
                                        ),
                                        q2,
                                    ),
                                ),
                                Some((Err(e), q2)) => Some((Err(e), q2)),
                                None => None,
                            },
                            None => None,
                        }
                    },
                    None => None,
                }
            } else {
                Some((Ok(left), q))
            },
            None => None,
        },
        Some((Err(e), q)) => Some((Err(e), q)),
        None => None,
    }
}

/// loop_term = atom ("^" Choice)*
pub open spec fn rule_loop_term(ts: Seq<SpecToken>, p: SpecParser) -> Parsed<SpecTerm>
    decreases ts.len() - p.index, 3nat,
{
    match spec_after(ts, p, rule_atom(ts, p)) {
        Some((Ok(term), q)) => rule_loop_rest(ts, q, term),
        Some((Err(e), q)) => Some((Err(e), q)),
        None => None,
    }
}

/// The `("^" Choice)*` part of a loop term, around the term read so far.
pub open spec fn rule_loop_rest(ts: Seq<SpecToken>, p: SpecParser, term: SpecTerm) -> Parsed<
    SpecTerm,
>
    decreases ts.len() - p.index, 2nat,
{
    match spec_current(ts, p) {
        Some(t) => if t.token_type == SpecTokenType::Caret {
            match rule_choice(ts, spec_advanced(p)) {
                Some((Ok(branch), q)) => if p.index < q.index <= ts.len() {
                    rule_loop_rest(ts, q, SpecTerm::Loop { term: Box::new(term), branch })
                } else {
                    None
                },
                Some((Err(e), q)) => Some((Err(e), q)),
                None => None,
            }
        } else {
            Some((Ok(term), p))
        },
        None => None,
    }
}

/// atom = "(" sequence ")" | Variable | "[" sequence "]" [Location] "." loop_term
///      | [Location] "<" Variable ">" "." loop_term | Choice | Special
pub open spec fn rule_atom(ts: Seq<SpecToken>, p: SpecParser) -> Parsed<SpecTerm>
    decreases ts.len() - p.index, 2nat,
{
    match spec_current(ts, p) {
        Some(t) => match spec_atom_special(t.token_type) {
            Some(s) => Some((Ok(SpecTerm::Special(s)), spec_advanced(p))),
            None => match t.token_type {
                SpecTokenType::LParen => {
                    let q = spec_advanced(p);
                    match spec_after(ts, q, rule_sequence(ts, q)) {
                        Some((Ok(term), q1)) => match spec_consume(
                            ts,
                            q1,
                            SpecTokenType::RParen,
                            "expected `)` after sequence"@,
                        ) {
                            Some((Ok(_), q2)) => Some((Ok(term), q2)),
                            Some((Err(e), q2)) => Some((Err(e), q2)),
                            None => None,
                        },
                        Some((Err(e), q1)) => Some((Err(e), q1)),
                        None => None,
                    }
                },
                SpecTokenType::LBracket => {
                    let q = spec_advanced(p);
                    match spec_after(ts, q, rule_sequence(ts, q)) {
                        Some((Ok(argument), q1)) => match spec_consume(
                            ts,
                            q1,
                            SpecTokenType::RBracket,
                            "expected `]` after application argument"@,
                        ) {
                            Some((Ok(_), q2)) => {
                                let place = match spec_current(ts, q2) {
                                    Some(t2) => if t2.token_type == SpecTokenType::Dot {
                                        Some((Ok(SpecLocation::Main), q2))
                                    } else {
                                        rule_location(ts, q2)
                                    },
                                    None => None,
                                };
                                match place {
                                    Some((Ok(location), q3)) => match spec_consume(
                                        ts,
                                        q3,
                                        SpecTokenType::Dot,
                                        "expected `.` after application location"@,
                                    ) {
                                        Some((Ok(_), q4)) => if p.index < q4.index <= ts.len() {
                                            match spec_after(ts, q4, rule_loop_term(ts, q4)) {
                                                Some((Ok(function), q5)) => Some(
                                                    (
                                                        Ok(
                                                            SpecTerm::Application {
                                                                function: Box::new(function),
                                                                argument: Box::new(argument),
                                                                location,
                                                            },
                                                        ),
                                                        q5,
                                                    ),
                                                ),
                                                Some((Err(e), q5)) => Some((Err(e), q5)),
                                                None => None,
                                            }
                                        } else {
                                            None
                                        },
                                        Some((Err(e), q4)) => Some((Err(e), q4)),
                                        None => None,
                                    },
                                    Some((Err(e), q3)) => Some((Err(e), q3)),
                                    None => None,
                                }
                            },
                            Some((Err(e), q2)) => Some((Err(e), q2)),
                            None => None,
                        },
                        Some((Err(e), q1)) => Some((Err(e), q1)),
                        None => None,
                    }
                },
                SpecTokenType::LAngleBracket => match spec_peek(ts, p, 1) {
                    Some(t1) => match t1.token_type {
                        SpecTokenType::Identifier(_) => match spec_peek(ts, p, 2) {
                            Some(t2) => if t2.token_type == SpecTokenType::RAngleBracket {
                                rule_abstraction(ts, p)
                            } else {
                                Some((Ok(SpecTerm::Special(Special::LessThan)), spec_advanced(p)))
                            },
                            None => None,
                        },
                        _ => Some((Ok(SpecTerm::Special(Special::LessThan)), spec_advanced(p))),
                    },
                    None => None,
                },
                SpecTokenType::Identifier(name) => match spec_peek(ts, p, 1) {
                    Some(t1) => if t1.token_type == SpecTokenType::LAngleBracket {
                        rule_abstraction(ts, p)
                    } else {
                        Some((Ok(SpecTerm::Variable { name }), spec_advanced(p)))
                    },
                    None => None,
                },
                _ => match spec_token_choice(t.token_type) {
                    Some(c) => Some((Ok(SpecTerm::Choice(c)), spec_advanced(p))),
                    None => Some((Err(spec_error_at(t, "expected FMC atom"@)), p)),
                },
            },
        },
        None => None,
    }
}

/// [Location] "<" Variable ">" "." loop_term
pub open spec fn rule_abstraction(ts: Seq<SpecToken>, p: SpecParser) -> Parsed<SpecTerm>
    decreases ts.len() - p.index, 1nat,
{
    let place = match spec_current(ts, p) {
        Some(t) => if t.token_type == SpecTokenType::LAngleBracket {
            Some((Ok(SpecLocation::Main), p))
        } else {
            rule_location(ts, p)
        },
        None => None,
    };
    match place {
        Some((Ok(location), q)) => match spec_consume(
            ts,
            q,
            SpecTokenType::LAngleBracket,
            "expected `<` to begin abstraction"@,
        ) {
            Some((Ok(_), q1)) => match spec_current(ts, q1) {
                Some(t1) => match t1.token_type {
                    SpecTokenType::Identifier(variable) => match spec_consume(
                        ts,
                        spec_advanced(q1),
                        SpecTokenType::RAngleBracket,
                        "expected `>` after abstraction binder"@,
                    ) {
                        Some((Ok(_), q2)) => match spec_consume(
                            ts,
                            q2,
                            SpecTokenType::Dot,
                            "expected `.` after abstraction binder"@,
                        ) {
                            Some((Ok(_), q3)) => if p.index < q3.index <= ts.len() {
                                match spec_after(ts, q3, rule_loop_term(ts, q3)) {
                                    Some((Ok(term), q4)) => Some(
                                        (
                                            Ok(
                                                SpecTerm::Abstraction {
                                                    binds: variable,
                                                    term: Box::new(term),
                                                    location,
                                                },
                                            ),
                                            q4,
                                        ),
                                    ),
                                    Some((Err(e), q4)) => Some((Err(e), q4)),
                                    None => None,
                                }
                            } else {
                                None
                            },
                            Some((Err(e), q3)) => Some((Err(e), q3)),
                            None => None,
                        },
                        Some((Err(e), q2)) => Some((Err(e), q2)),
                        None => None,
                    },
                    _ => Some((Err(spec_error_at(t1, "expected abstraction binder name"@)), q1)),
                },
                None => None,
            },
            Some((Err(e), q1)) => Some((Err(e), q1)),
            None => None,
        },
        Some((Err(e), q)) => Some((Err(e), q)),
        None => None,
    }
}

/// embeddedFmc = "\" sequence "\"
pub open spec fn rule_embedded_fmc(ts: Seq<SpecToken>, p: SpecParser) -> Parsed<SpecTerm> {
    match spec_consume(
        ts,
        p,
        SpecTokenType::Backslash,
        "expected `\\` to begin embedded FMC term"@,
    ) {
        Some((Ok(_), q)) => match spec_after(ts, q, rule_sequence(ts, q)) {
            Some((Ok(term), q1)) => match spec_consume(
                ts,
                q1,
                SpecTokenType::Backslash,
                "expected closing `\\` after embedded FMC term"@,
            ) {
                Some((Ok(_), q2)) => Some((Ok(term), q2)),
                Some((Err(e), q2)) => Some((Err(e), q2)),
                None => None,
            },
            Some((Err(e), q1)) => Some((Err(e), q1)),
            None => None,
        },
        Some((Err(e), q)) => Some((Err(e), q)),
        None => None,
    }
}

/// The operator of binary level `k` (0 for `||` up to 5 for `*`, `/` and `%`) that a token
/// stands for.
pub open spec fn spec_binary_op(k: nat, tt: SpecTokenType) -> Option<Special> {
    if k == 0 {
        match tt {
            SpecTokenType::Or => Some(Special::LogicOr),
            _ => None,
        }
    } else if k == 1 {
        match tt {
            SpecTokenType::And => Some(Special::LogicAnd),
            _ => None,
        }
    } else if k == 2 {
        match tt {
            SpecTokenType::NotEqual => Some(Special::NotEqual),
            SpecTokenType::Equal => Some(Special::Equal),
            _ => None,
        }
    } else if k == 3 {
        match tt {
            SpecTokenType::LAngleBracket => Some(Special::LessThan),
            SpecTokenType::RAngleBracket => Some(Special::GreaterThan),
            SpecTokenType::GreaterThanEqual => Some(Special::GreaterThanEqual),
            SpecTokenType::LessThanEqual => Some(Special::LessThanEqual),
            _ => None,
        }
    } else if k == 4 {
        match tt {
            SpecTokenType::Minus => Some(Special::Subraction),
            SpecTokenType::Plus => Some(Special::Addition),
            _ => None,
        }
    } else {
        match tt {
            SpecTokenType::Divide => Some(Special::Division),
            SpecTokenType::Star => Some(Special::Multiplication),
            SpecTokenType::Modulo => Some(Special::Modulo),
            _ => None,
        }
    }
}

/// `left op right`: evaluate both operands in turn, then the primitive.
pub open spec fn spec_binary_term(left: SpecTerm, right: SpecTerm, op: Special) -> SpecTerm {
    SpecTerm::Case {
        term: Box::new(left),
        exit: spec_skip(),
        then: Box::new(
            SpecTerm::Case {
                term: Box::new(right),
                exit: spec_skip(),
                then: Box::new(SpecTerm::Special(op)),
            },
        ),
    }
}

/// The rank of binary level `k` among the expression rules.
pub open spec fn spec_binary_rank(k: nat) -> nat {
    if k < 5 {
        (30 - 3 * k) as nat
    } else {
        15
    }
}

/// The operand of binary level `k`: the next level, or a unary expression below `*`.
pub open spec fn rule_operand(ts: Seq<SpecToken>, p: SpecParser, k: nat) -> Parsed<SpecTerm>
    decreases ts.len() - p.index, (spec_binary_rank(k) - 1) as nat,
{
    if k < 5 {
        rule_binary(ts, p, k + 1)
    } else {
        rule_unary(ts, p)
    }
}

/// Binary level `k`: logic_or = logic_and ("||" logic_and)*, logic_and = equality ("&&"
/// equality)*, equality, comparison, sum and factor alike.
pub open spec fn rule_binary(ts: Seq<SpecToken>, p: SpecParser, k: nat) -> Parsed<SpecTerm>
    decreases ts.len() - p.index, spec_binary_rank(k),
{
    match spec_after(ts, p, rule_operand(ts, p, k)) {
        Some((Ok(term), q)) => rule_binary_rest(ts, q, k, term),
        Some((Err(e), q)) => Some((Err(e), q)),
        None => None,
    }
}

/// The repeated `op operand` part of binary level `k` after the term read so far.
pub open spec fn rule_binary_rest(ts: Seq<SpecToken>, p: SpecParser, k: nat, term: SpecTerm) -> Parsed<
    SpecTerm,
>
    decreases ts.len() - p.index, (spec_binary_rank(k) - 1) as nat,
{
    match spec_current(ts, p) {
        Some(t) => match spec_binary_op(k, t.token_type) {
            Some(op) => {
                let q = spec_advanced(p);
                match spec_after(ts, q, rule_operand(ts, q, k)) {
                    Some((Ok(next), q1)) => rule_binary_rest(
                        ts,
                        q1,
                        k,
                        spec_binary_term(term, next, op),
                    ),
                    Some((Err(e), q1)) => Some((Err(e), q1)),
                    None => None,
                }
            },
            None => Some((Ok(term), p)),
        },
        None => None,
    }
}

/// A unary operator applied to its operand.
pub open spec fn spec_unary_term(tt: SpecTokenType, term: SpecTerm) -> SpecTerm {
    match tt {
        SpecTokenType::Minus => SpecTerm::Case {
            term: Box::new(
                spec_as_expression(SpecTerm::Choice(SpecChoice::Constant(Constant::Integer(0)))),
            ),
            exit: spec_skip(),
            then: Box::new(
                SpecTerm::Case {
                    term: Box::new(term),
                    exit: spec_skip(),
                    then: Box::new(SpecTerm::Special(Special::Subraction)),
                },
            ),
        },
        SpecTokenType::Int => SpecTerm::Case {
            term: Box::new(term),
            exit: spec_skip(),
            then: Box::new(SpecTerm::Special(Special::IntCast)),
        },
        _ => SpecTerm::Case {
            term: Box::new(term),
            exit: spec_skip(),
            then: Box::new(SpecTerm::Special(Special::LogicNot)),
        },
    }
}

/// Whether a token kind is a unary operator.
pub open spec fn spec_is_unary(tt: SpecTokenType) -> bool {
    tt == SpecTokenType::Not || tt == SpecTokenType::Minus || tt == SpecTokenType::Int
}

/// unary = ( "!" | "-" | "int" ) unary | call
pub open spec fn rule_unary(ts: Seq<SpecToken>, p: SpecParser) -> Parsed<SpecTerm>
    decreases ts.len() - p.index, 12nat,
{
    match spec_current(ts, p) {
        Some(t) => if spec_is_unary(t.token_type) {
            let q = spec_advanced(p);
            match spec_after(ts, q, rule_unary(ts, q)) {
                Some((Ok(term), q1)) => Some((Ok(spec_unary_term(t.token_type, term)), q1)),
                Some((Err(e), q1)) => Some((Err(e), q1)),
                None => None,
            }
        } else {
            rule_call(ts, p)
        },
        None => None,
    }
}

/// The position of the first declared function with the given name.
pub open spec fn spec_find_function(fs: Seq<SpecFunction>, name: Seq<char>) -> Option<int> {
    if exists|i: int| 0 <= i < fs.len() && fs[i].name == name {
        Some(
            choose|i: int|
                0 <= i < fs.len() && fs[i].name == name && forall|j: int|
                    0 <= j < i ==> fs[j].name != name,
        )
    } else {
        None
    }
}

/// The name under which a function is bound in the program term.
pub open spec fn spec_bound_name(name: Seq<char>) -> Seq<char> {
    name + "_f"@
}

/// The message for a call with the wrong number of arguments.
pub open spec fn spec_arity_message(expected: nat, name: Seq<char>, found: nat) -> Seq<char> {
    "expected "@ + spec_digits(expected) + " argument(s) for function `"@ + name + "`, found "@
        + spec_digits(found)
}

/// The arguments of a call sequenced before the function, the last argument innermost,
/// each step expanded.
pub open spec fn spec_apply_arguments(term: SpecTerm, args: Seq<SpecTerm>, n: u64) -> (SpecTerm, u64)
    decreases args.len(),
{
    if args.len() == 0 {
        (term, n)
    } else {
        let (t1, n1) = spec_expand_operations(
            SpecTerm::Operation(
                SpecOperation::Sequence { first: Box::new(args.last()), second: Box::new(term) },
            ),
            n,
        );
        spec_apply_arguments(t1, args.drop_last(), n1)
    }
}

/// A declared function marked as calling itself.
pub open spec fn spec_mark_recursive(fs: Seq<SpecFunction>, i: int) -> Seq<SpecFunction> {
    fs.update(
        i,
        SpecFunction {
            name: fs[i].name,
            parameters: fs[i].parameters,
            term: fs[i].term,
            recurses: true,
        },
    )
}

/// call = primary | IDENT "(" arguments? ")"
pub open spec fn rule_call(ts: Seq<SpecToken>, p: SpecParser) -> Parsed<SpecTerm>
    decreases ts.len() - p.index, 11nat,
{
    match spec_current(ts, p) {
        Some(t) => match t.token_type {
            SpecTokenType::Identifier(fn_name) => match spec_consume(
                ts,
                spec_advanced(p),
                SpecTokenType::LParen,
                "expected `(` after function name in call"@,
            ) {
                Some((Ok(_), q)) => match spec_find_function(q.functions, fn_name) {
                    Some(i) => if p.index < q.index <= ts.len() {
                        rule_call_known(ts, q, fn_name, i)
                    } else {
                        None
                    },
                    None => spec_fail(ts, q, "unknown function `"@ + fn_name + "`"@),
                },
                Some((Err(e), q)) => Some((Err(e), q)),
                None => None,
            },
            _ => rule_primary(ts, p),
        },
        None => None,
    }
}

/// The arguments and closing parenthesis of a call of the declared function at `i`, after
/// its opening parenthesis.
pub open spec fn rule_call_known(ts: Seq<SpecToken>, q: SpecParser, fn_name: Seq<char>, i: int) -> Parsed<
    SpecTerm,
>
    decreases ts.len() - q.index, 34nat,
{
    let f = q.functions[i];
    let q1 = if f.term is None {
        SpecParser {
            index: q.index,
            functions: spec_mark_recursive(q.functions, i),
            next_var: q.next_var,
        }
    } else {
        q
    };
    let args = match spec_current_is(ts, q1, SpecTokenType::RParen) {
        Some(true) => Some((Ok(Seq::<SpecTerm>::empty()), q1)),
        Some(false) => spec_after(ts, q1, rule_arguments(ts, q1)),
        None => None,
    };
    match args {
        Some((Ok(args), q2)) => match spec_consume(
            ts,
            q2,
            SpecTokenType::RParen,
            "expected `)` after function arguments"@,
        ) {
            Some((Ok(_), q3)) => if args.len() != f.parameters.len() {
                spec_fail(ts, q3, spec_arity_message(f.parameters.len(), fn_name, args.len()))
            } else {
                let (term, n) = spec_apply_arguments(
                    spec_variable(spec_bound_name(fn_name)),
                    args,
                    q3.next_var,
                );
                Some((Ok(term), spec_with_names(q3, n)))
            },
            Some((Err(e), q3)) => Some((Err(e), q3)),
            None => None,
        },
        Some((Err(e), q2)) => Some((Err(e), q2)),
        None => None,
    }
}

/// arguments = expression ( "," expression )*
pub open spec fn rule_arguments(ts: Seq<SpecToken>, p: SpecParser) -> Parsed<Seq<SpecTerm>>
    decreases ts.len() - p.index, 33nat,
{
    match spec_after(ts, p, rule_expression(ts, p)) {
        Some((Ok(first), q)) => rule_arguments_rest(ts, q, seq![first]),
        Some((Err(e), q)) => Some((Err(e), q)),
        None => None,
    }
}

/// The `( "," expression )*` part of an argument list.
pub open spec fn rule_arguments_rest(ts: Seq<SpecToken>, p: SpecParser, args: Seq<SpecTerm>) -> Parsed<
    Seq<SpecTerm>,
>
    decreases ts.len() - p.index, 1nat,
{
    match spec_current(ts, p) {
        Some(t) => if t.token_type == SpecTokenType::Comma {
            let q = spec_advanced(p);
            match spec_after(ts, q, rule_expression(ts, q)) {
                Some((Ok(next), q1)) => rule_arguments_rest(ts, q1, args.push(next)),
                Some((Err(e), q1)) => Some((Err(e), q1)),
                None => None,
            }
        } else {
            Some((Ok(args), p))
        },
        None => None,
    }
}

/// A constant pushed as a value.
pub open spec fn spec_constant_expression(c: Constant) -> SpecTerm {
    spec_as_expression(SpecTerm::Choice(SpecChoice::Constant(c)))
}

/// primary = "true" | "false" | "input" | NUMBER | "$" IDENT | "(" expression ")" | embeddedFmc
pub open spec fn rule_primary(ts: Seq<SpecToken>, p: SpecParser) -> Parsed<SpecTerm>
    decreases ts.len() - p.index, 10nat,
{
    match spec_current(ts, p) {
        Some(t) => match t.token_type {
            SpecTokenType::True => Some(
                (Ok(spec_constant_expression(Constant::Boolean(true))), spec_advanced(p)),
            ),
            SpecTokenType::False => Some(
                (Ok(spec_constant_expression(Constant::Boolean(false))), spec_advanced(p)),
            ),
            SpecTokenType::Input => Some(
                (Ok(SpecTerm::Operation(SpecOperation::Read)), spec_advanced(p)),
            ),
            SpecTokenType::Integer(num) => Some(
                (Ok(spec_constant_expression(Constant::Integer(num))), spec_advanced(p)),
            ),
            SpecTokenType::Dollar => {
                let q = spec_advanced(p);
                match spec_current(ts, q) {
                    Some(t1) => match t1.token_type {
                        SpecTokenType::Identifier(cell) => Some(
                            (
                                Ok(SpecTerm::Operation(SpecOperation::Lookup { cell })),
                                spec_advanced(q),
                            ),
                        ),
                        _ => Some((Err(spec_error_at(t1, "expected identifier after `$`"@)), q)),
                    },
                    None => None,
                }
            },
            SpecTokenType::LParen => {
                let q = spec_advanced(p);
                match spec_after(ts, q, rule_expression(ts, q)) {
                    Some((Ok(expr), q1)) => match spec_current(ts, q1) {
                        Some(t1) => if t1.token_type == SpecTokenType::RParen {
                            Some((Ok(expr), spec_advanced(q1)))
                        } else {
                            Some((Err(spec_error_at(t1, "expected `)` after expression"@)), q1))
                        },
                        None => None,
                    },
                    Some((Err(e), q1)) => Some((Err(e), q1)),
                    None => None,
                }
            },
            SpecTokenType::Backslash => rule_embedded_fmc(ts, p),
            _ => Some((Err(spec_error_at(t, "expected expression"@)), p)),
        },
        None => None,
    }
}

/// expression = assignment
pub open spec fn rule_expression(ts: Seq<SpecToken>, p: SpecParser) -> Parsed<SpecTerm>
    decreases ts.len() - p.index, 32nat,
{
    rule_assignment(ts, p)
}

/// assignment = IDENT ":=" assignment | logic_or
pub open spec fn rule_assignment(ts: Seq<SpecToken>, p: SpecParser) -> Parsed<SpecTerm>
    decreases ts.len() - p.index, 31nat,
{
    match spec_peek(ts, p, 1) {
        Some(t1) => if t1.token_type == SpecTokenType::Assignment {
            match spec_current(ts, p) {
                Some(t) => match t.token_type {
                    SpecTokenType::Identifier(ident) => {
                        let q = spec_advanced(p);
                        match spec_current(ts, q) {
                            Some(t2) => if t2.token_type == SpecTokenType::Assignment {
                                let q1 = spec_advanced(q);
                                match spec_after(ts, q1, rule_assignment(ts, q1)) {
                                    Some((Ok(expr), q2)) => Some(
                                        (
                                            Ok(
                                                SpecTerm::Operation(
                                                    SpecOperation::Update {
                                                        location: SpecLocation::Cell(ident),
                                                        argument: Box::new(expr),
                                                    },
                                                ),
                                            ),
                                            q2,
                                        ),
                                    ),
                                    Some((Err(e), q2)) => Some((Err(e), q2)),
                                    None => None,
                                }
                            } else {
                                Some((Err(spec_error_at(t2, "expected `:=` in assignment"@)), q))
                            },
                            None => None,
                        }
                    },
                    _ => Some(
                        (
                            Err(
                                spec_error_at(
                                    t,
                                    "expected identifier on left side of assignment"@,
                                ),
                            ),
                            p,
                        ),
                    ),
                },
                None => None,
            }
        } else {
            rule_binary(ts, p, 0)
        },
        None => None,
    }
}

/// Statements run one after the other: each continues, on the skip choice, with the rest.
pub open spec fn spec_fold_statements(s: Seq<SpecTerm>) -> SpecTerm
    decreases s.len(),
{
    if s.len() <= 1 {
        s[0]
    } else {
        SpecTerm::Case {
            term: Box::new(s[0]),
            exit: spec_skip(),
            then: Box::new(spec_fold_statements(s.drop_first())),
        }
    }
}

/// The term of a block: its statements in turn, or skip when it has none.
pub open spec fn spec_fold_block(s: Seq<SpecTerm>) -> SpecTerm {
    if s.len() == 0 {
        SpecTerm::Choice(spec_skip())
    } else {
        spec_fold_statements(s)
    }
}

/// statement = exprStmt | whileDoStmt | doWhileStmt | printStmt | ifStmt | block | breakStmt
///           | returnStmt
pub open spec fn rule_statement(ts: Seq<SpecToken>, p: SpecParser) -> Parsed<SpecTerm>
    decreases ts.len() - p.index, 30nat,
{
    match spec_current(ts, p) {
        Some(t) => match t.token_type {
            SpecTokenType::While => rule_while_do(ts, p),
            SpecTokenType::Do => rule_do_while(ts, p),
            SpecTokenType::Print => rule_print(ts, p),
            SpecTokenType::LBrace => rule_block(ts, p),
            SpecTokenType::If => rule_if(ts, p),
            SpecTokenType::Break => rule_break(ts, p),
            SpecTokenType::Return => rule_return(ts, p),
            _ => rule_expr_stmt(ts, p),
        },
        None => None,
    }
}

/// returnStmt = "return" expression? ";"
pub open spec fn rule_return(ts: Seq<SpecToken>, p: SpecParser) -> Parsed<SpecTerm> {
    let returned = SpecTerm::Choice(SpecChoice::Exception(SpecException::Return));
    match spec_consume(ts, p, SpecTokenType::Return, "expected `return`"@) {
        Some((Ok(_), q)) => match spec_current_is(ts, q, SpecTokenType::SemiColon) {
            Some(false) => match spec_after(ts, q, rule_expression(ts, q)) {
                Some((Ok(expr), q1)) => match spec_consume(
                    ts,
                    q1,
                    SpecTokenType::SemiColon,
                    "expected `;` after return expression"@,
                ) {
                    Some((Ok(_), q2)) => Some(
                        (
                            Ok(
                                SpecTerm::Application {
                                    function: Box::new(returned),
                                    argument: Box::new(expr),
                                    location: SpecLocation::Main,
                                },
                            ),
                            q2,
                        ),
                    ),
                    Some((Err(e), q2)) => Some((Err(e), q2)),
                    None => None,
                },
                Some((Err(e), q1)) => Some((Err(e), q1)),
                None => None,
            },
            Some(true) => match spec_consume(
                ts,
                q,
                SpecTokenType::SemiColon,
                "expected `;` after `return`"@,
            ) {
                Some((Ok(_), q1)) => Some(
                    (
                        Ok(
                            SpecTerm::Application {
                                function: Box::new(returned),
                                argument: Box::new(SpecTerm::Choice(spec_skip())),
                                location: SpecLocation::Main,
                            },
                        ),
                        q1,
                    ),
                ),
                Some((Err(e), q1)) => Some((Err(e), q1)),
                None => None,
            },
            None => None,
        },
        Some((Err(e), q)) => Some((Err(e), q)),
        None => None,
    }
}

/// breakStmt = "break" ";"
pub open spec fn rule_break(ts: Seq<SpecToken>, p: SpecParser) -> Parsed<SpecTerm> {
    match spec_consume(ts, p, SpecTokenType::Break, "expected `break`"@) {
        Some((Ok(_), q)) => match spec_consume(
            ts,
            q,
            SpecTokenType::SemiColon,
            "expected `;` after `break`"@,
        ) {
            Some((Ok(_), q1)) => Some(
                (Ok(SpecTerm::Choice(SpecChoice::Exception(SpecException::Break))), q1),
            ),
            Some((Err(e), q1)) => Some((Err(e), q1)),
            None => None,
        },
        Some((Err(e), q)) => Some((Err(e), q)),
        None => None,
    }
}

/// `"(" expression ")"` after a keyword, with the messages of the rule it stands in.
pub open spec fn rule_condition(
    ts: Seq<SpecToken>,
    p: SpecParser,
    open_message: Seq<char>,
    close_message: Seq<char>,
) -> Parsed<SpecTerm> {
    match spec_consume(ts, p, SpecTokenType::LParen, open_message) {
        Some((Ok(_), q)) => match spec_after(ts, q, rule_expression(ts, q)) {
            Some((Ok(condition), q1)) => match spec_consume(
                ts,
                q1,
                SpecTokenType::RParen,
                close_message,
            ) {
                Some((Ok(_), q2)) => Some((Ok(condition), q2)),
                Some((Err(e), q2)) => Some((Err(e), q2)),
                None => None,
            },
            Some((Err(e), q1)) => Some((Err(e), q1)),
            None => None,
        },
        Some((Err(e), q)) => Some((Err(e), q)),
        None => None,
    }
}

/// doWhileStmt = "do" statement "while" "(" expression ")"
pub open spec fn rule_do_while(ts: Seq<SpecToken>, p: SpecParser) -> Parsed<SpecTerm>
    decreases ts.len() - p.index, 29nat,
{
    match spec_consume(ts, p, SpecTokenType::Do, "expected `do`"@) {
        Some((Ok(_), q)) => if p.index < q.index <= ts.len() {
            match spec_after(ts, q, rule_statement(ts, q)) {
                Some((Ok(inside), q1)) => match spec_consume(
                    ts,
                    q1,
                    SpecTokenType::While,
                    "expected `while` after `do` body"@,
                ) {
                    Some((Ok(_), q2)) => match spec_after(
                        ts,
                        q2,
                        rule_condition(
                            ts,
                            q2,
                            "expected `(` after `while`"@,
                            "expected `)` after do-while condition"@,
                        ),
                    ) {
                        Some((Ok(condition), q3)) => Some(
                            (
                                Ok(
                                    SpecTerm::Operation(
                                        SpecOperation::DoWhile {
                                            term: Box::new(inside),
                                            condition: Box::new(condition),
                                        },
                                    ),
                                ),
                                q3,
                            ),
                        ),
                        Some((Err(e), q3)) => Some((Err(e), q3)),
                        None => None,
                    },
                    Some((Err(e), q2)) => Some((Err(e), q2)),
                    None => None,
                },
                Some((Err(e), q1)) => Some((Err(e), q1)),
                None => None,
            }
        } else {
            None
        },
        Some((Err(e), q)) => Some((Err(e), q)),
        None => None,
    }
}

/// ifStmt = "if" "(" expression ")" statement ("else" statement)?
pub open spec fn rule_if(ts: Seq<SpecToken>, p: SpecParser) -> Parsed<SpecTerm>
    decreases ts.len() - p.index, 29nat,
{
    match spec_consume(ts, p, SpecTokenType::If, "expected `if`"@) {
        Some((Ok(_), q)) => match spec_after(
            ts,
            q,
            rule_condition(
                ts,
                q,
                "expected `(` after `if`"@,
                "expected `)` after if condition"@,
            ),
        ) {
            Some((Ok(condition), q1)) => if p.index < q1.index <= ts.len() {
                match spec_after(ts, q1, rule_statement(ts, q1)) {
                    Some((Ok(then), q2)) => {
                        let otherwise = match spec_current(ts, q2) {
                            Some(t) => if t.token_type == SpecTokenType::Else {
                                let q3 = spec_advanced(q2);
                                if p.index < q3.index <= ts.len() {
                                    spec_after(ts, q3, rule_statement(ts, q3))
                                } else {
                                    None
                                }
                            } else {
                                Some((Ok(SpecTerm::Choice(spec_skip())), q2))
                            },
                            None => None,
                        };
                        match otherwise {
                            Some((Ok(else_), q3)) => {
                                let (term, n) = spec_expand_operations(
                                    SpecTerm::Operation(
                                        SpecOperation::IfThenElse {
                                            condition: Box::new(condition),
                                            then: Box::new(then),
                                            else_: Box::new(else_),
                                        },
                                    ),
                                    q3.next_var,
                                );
                                Some((Ok(term), spec_with_names(q3, n)))
                            },
                            Some((Err(e), q3)) => Some((Err(e), q3)),
                            None => None,
                        }
                    },
                    Some((Err(e), q2)) => Some((Err(e), q2)),
                    None => None,
                }
            } else {
                None
            },
            Some((Err(e), q1)) => Some((Err(e), q1)),
            None => None,
        },
        Some((Err(e), q)) => Some((Err(e), q)),
        None => None,
    }
}

/// printStmt = "print" expression ";"
pub open spec fn rule_print(ts: Seq<SpecToken>, p: SpecParser) -> Parsed<SpecTerm> {
    match spec_consume(ts, p, SpecTokenType::Print, "expected `print`"@) {
        Some((Ok(_), q)) => match spec_after(ts, q, rule_expression(ts, q)) {
            Some((Ok(expression), q1)) => {
                let (term, n) = spec_expand(
                    SpecOperation::Write { argument: Box::new(expression) },
                    q1.next_var,
                );
                match spec_consume(
                    ts,
                    spec_with_names(q1, n),
                    SpecTokenType::SemiColon,
                    "expected `;` after print statement"@,
                ) {
                    Some((Ok(_), q2)) => Some((Ok(term), q2)),
                    Some((Err(e), q2)) => Some((Err(e), q2)),
                    None => None,
                }
            },
            Some((Err(e), q1)) => Some((Err(e), q1)),
            None => None,
        },
        Some((Err(e), q)) => Some((Err(e), q)),
        None => None,
    }
}

/// whileDoStmt = "while" "(" expression ")" statement
pub open spec fn rule_while_do(ts: Seq<SpecToken>, p: SpecParser) -> Parsed<SpecTerm>
    decreases ts.len() - p.index, 29nat,
{
    match spec_consume(ts, p, SpecTokenType::While, "expected `while`"@) {
        Some((Ok(_), q)) => match spec_after(
            ts,
            q,
            rule_condition(
                ts,
                q,
                "expected `(` after `while`"@,
                "expected `)` after while condition"@,
            ),
        ) {
            Some((Ok(condition), q1)) => if p.index < q1.index <= ts.len() {
                match spec_after(ts, q1, rule_statement(ts, q1)) {
                    Some((Ok(inside), q2)) => Some(
                        (
                            Ok(
                                SpecTerm::Operation(
                                    SpecOperation::WhileDo {
                                        condition: Box::new(condition),
                                        term: Box::new(inside),
                                    },
                                ),
                            ),
                            q2,
                        ),
                    ),
                    Some((Err(e), q2)) => Some((Err(e), q2)),
                    None => None,
                }
            } else {
                None
            },
            Some((Err(e), q1)) => Some((Err(e), q1)),
            None => None,
        },
        Some((Err(e), q)) => Some((Err(e), q)),
        None => None,
    }
}

/// block = "{" (statement)* "}"
pub open spec fn rule_block(ts: Seq<SpecToken>, p: SpecParser) -> Parsed<SpecTerm>
    decreases ts.len() - p.index, 29nat,
{
    match spec_consume(ts, p, SpecTokenType::LBrace, "expected `{` to begin block"@) {
        Some((Ok(_), q)) => if p.index < q.index <= ts.len() {
            rule_block_rest(ts, q, Seq::empty())
        } else {
            None
        },
        Some((Err(e), q)) => Some((Err(e), q)),
        None => None,
    }
}

/// The statements of a block up to its closing brace, after those read so far.
pub open spec fn rule_block_rest(ts: Seq<SpecToken>, p: SpecParser, block: Seq<SpecTerm>) -> Parsed<
    SpecTerm,
>
    decreases ts.len() - p.index, 31nat,
{
    match spec_current(ts, p) {
        Some(t) => if t.token_type == SpecTokenType::RBrace {
            Some((Ok(spec_fold_block(block)), spec_advanced(p)))
        } else if t.token_type == SpecTokenType::EOF {
            Some((Err(spec_error_at(t, "expected `}` to close block"@)), p))
        } else {
            match spec_after(ts, p, rule_statement(ts, p)) {
                Some((Ok(statement), q)) => if p.index < q.index {
                    rule_block_rest(ts, q, block.push(statement))
                } else {
                    None
                },
                Some((Err(e), q)) => Some((Err(e), q)),
                None => None,
            }
        },
        None => None,
    }
}

/// exprStmt = expression ";"
pub open spec fn rule_expr_stmt(ts: Seq<SpecToken>, p: SpecParser) -> Parsed<SpecTerm> {
    match spec_after(ts, p, rule_expression(ts, p)) {
        Some((Ok(expr), q)) => match spec_consume(
            ts,
            q,
            SpecTokenType::SemiColon,
            "expected `;` after expression"@,
        ) {
            Some((Ok(_), q1)) => Some((Ok(expr), q1)),
            Some((Err(e), q1)) => Some((Err(e), q1)),
            None => None,
        },
        Some((Err(e), q)) => Some((Err(e), q)),
        None => None,
    }
}

/// The names after the first parameter of a parameter list.
pub open spec fn rule_parameters_rest(
    ts: Seq<SpecToken>,
    p: SpecParser,
    params: Seq<Seq<char>>,
) -> Parsed<Seq<Seq<char>>>
    decreases ts.len() - p.index,
{
    match spec_current(ts, p) {
        Some(t) => if t.token_type == SpecTokenType::Comma {
            let q = spec_advanced(p);
            match spec_current(ts, q) {
                Some(t1) => match t1.token_type {
                    SpecTokenType::Identifier(next) => if q.index < ts.len() {
                        rule_parameters_rest(ts, spec_advanced(q), params.push(next))
                    } else {
                        None
                    },
                    _ => Some(
                        (Err(spec_error_at(t1, "expected parameter name after `,`"@)), q),
                    ),
                },
                None => None,
            }
        } else {
            Some((Ok(params), p))
        },
        None => None,
    }
}

/// parameters = IDENT ( "," IDENT )*
pub open spec fn rule_parameters(ts: Seq<SpecToken>, p: SpecParser) -> Parsed<Seq<Seq<char>>> {
    match spec_current(ts, p) {
        Some(t) => match t.token_type {
            SpecTokenType::Identifier(first) => rule_parameters_rest(
                ts,
                spec_advanced(p),
                seq![first],
            ),
            _ => Some((Err(spec_error_at(t, "expected parameter name"@)), p)),
        },
        None => None,
    }
}

/// The declared functions with the given name given a body term.
pub open spec fn spec_set_terms(fs: Seq<SpecFunction>, name: Seq<char>, term: SpecTerm) -> Seq<
    SpecFunction,
> {
    Seq::new(
        fs.len(),
        |i: int|
            if fs[i].name == name {
                SpecFunction {
                    name: fs[i].name,
                    parameters: fs[i].parameters,
                    term: Some(term),
                    recurses: fs[i].recurses,
                }
            } else {
                fs[i]
            },
    )
}

/// The term of a function body: expanded, its cells made local, and a `return` caught.
pub open spec fn spec_function_body(body: SpecTerm, n: u64) -> (SpecTerm, u64) {
    let (expanded, n1) = spec_expand_operations(body, n);
    (
        SpecTerm::Case {
            term: Box::new(spec_relocate_term(expanded, 2, Seq::empty(), Seq::empty())),
            exit: SpecChoice::Exception(SpecException::Return),
            then: Box::new(spec_identity(spec_var_name(n1))),
        },
        spec_next(n1),
    )
}

/// function = IDENT "(" parameters? ")" block
pub open spec fn rule_function(ts: Seq<SpecToken>, p: SpecParser) -> Parsed<()> {
    match spec_current(ts, p) {
        Some(t) => match t.token_type {
            SpecTokenType::Identifier(name) => match spec_consume(
                ts,
                spec_advanced(p),
                SpecTokenType::LParen,
                "expected `(` after function name"@,
            ) {
                Some((Ok(_), q)) => {
                    let params = match spec_current_is(ts, q, SpecTokenType::RParen) {
                        Some(true) => Some((Ok(Seq::<Seq<char>>::empty()), q)),
                        Some(false) => rule_parameters(ts, q),
                        None => None,
                    };
                    match params {
                        Some((Ok(parameters), q1)) => match spec_consume(
                            ts,
                            q1,
                            SpecTokenType::RParen,
                            "expected `)` after function parameters"@,
                        ) {
                            Some((Ok(_), q2)) => {
                                let declared = SpecParser {
                                    index: q2.index,
                                    functions: q2.functions.push(
                                        SpecFunction { name, parameters, term: None, recurses: false },
                                    ),
                                    next_var: q2.next_var,
                                };
                                match rule_block(ts, declared) {
                                    Some((Ok(body), q3)) => {
                                        let (term, n) = spec_function_body(body, q3.next_var);
                                        Some(
                                            (
                                                Ok(()),
                                                SpecParser {
                                                    index: q3.index,
                                                    functions: spec_set_terms(q3.functions, name, term),
                                                    next_var: n,
                                                },
                                            ),
                                        )
                                    },
                                    Some((Err(e), q3)) => Some((Err(e), q3)),
                                    None => None,
                                }
                            },
                            Some((Err(e), q2)) => Some((Err(e), q2)),
                            None => None,
                        },
                        Some((Err(e), q1)) => Some((Err(e), q1)),
                        None => None,
                    }
                },
                Some((Err(e), q)) => Some((Err(e), q)),
                None => None,
            },
            _ => Some((Err(spec_error_at(t, "expected function name after `fn`"@)), p)),
        },
        None => None,
    }
}

/// funDecl = "fn" function
pub open spec fn rule_fn_decl(ts: Seq<SpecToken>, p: SpecParser) -> Parsed<()> {
    match spec_consume(
        ts,
        p,
        SpecTokenType::Fn,
        "expected `fn` to begin function declaration"@,
    ) {
        Some((Ok(_), q)) => rule_function(ts, q),
        Some((Err(e), q)) => Some((Err(e), q)),
        None => None,
    }
}

/// The declarations of a program up to its end, after the statements read so far.
pub open spec fn rule_program_rest(ts: Seq<SpecToken>, p: SpecParser, statements: Seq<SpecTerm>) -> Parsed<
    Seq<SpecTerm>,
>
    decreases ts.len() - p.index,
{
    match spec_current(ts, p) {
        Some(t) => if t.token_type == SpecTokenType::EOF {
            Some((Ok(statements), p))
        } else if t.token_type == SpecTokenType::Fn {
            match rule_fn_decl(ts, p) {
                Some((Ok(_), q)) => if p.index < q.index <= ts.len() {
                    rule_program_rest(ts, q, statements)
                } else {
                    None
                },
                Some((Err(e), q)) => Some((Err(e), q)),
                None => None,
            }
        } else {
            match rule_statement(ts, p) {
                Some((Ok(statement), q)) => if p.index < q.index <= ts.len() {
                    rule_program_rest(ts, q, statements.push(statement))
                } else {
                    None
                },
                Some((Err(e), q)) => Some((Err(e), q)),
                None => None,
            }
        },
        None => None,
    }
}

/// `para := [para].* ; body` on the local of the parameter: the argument moved from the
/// stack into the parameter's local before the body runs.
pub open spec fn spec_parameter_update(para: Seq<char>, body: SpecTerm) -> SpecTerm {
    SpecTerm::Operation(
        SpecOperation::Sequence {
            first: Box::new(
                SpecTerm::Operation(
                    SpecOperation::Update {
                        location: SpecLocation::Local(para),
                        argument: Box::new(
                            SpecTerm::Application {
                                function: Box::new(SpecTerm::Choice(spec_skip())),
                                argument: Box::new(spec_variable(para)),
                                location: SpecLocation::Main,
                            },
                        ),
                    },
                ),
            ),
            second: Box::new(body),
        },
    )
}

/// A function body preceded by an update of the local of each parameter from the stack,
/// for the first `k` parameters in turn, each step expanded.
pub open spec fn spec_parameter_updates(t: SpecTerm, params: Seq<Seq<char>>, k: nat, n: u64) -> (
    SpecTerm,
    u64,
)
    decreases k,
{
    if k == 0 {
        (t, n)
    } else {
        let (t1, n1) = spec_parameter_updates(t, params, (k - 1) as nat, n);
        spec_expand_operations(spec_parameter_update(params[k - 1], t1), n1)
    }
}

/// The binder marking a function's entry: the last parameter's name with `_entry`.
pub open spec fn spec_entry_name(para: Seq<char>) -> Seq<char> {
    para + "_entry"@
}

/// A function term abstracted over its first `k` parameters in turn; the last parameter is
/// bound under its entry name. `None` where the renaming meets an operation.
pub open spec fn spec_parameter_binders(t: SpecTerm, params: Seq<Seq<char>>, k: nat, n: u64) -> Option<
    (SpecTerm, u64),
>
    decreases k,
{
    if k == 0 {
        Some((t, n))
    } else {
        match spec_parameter_binders(t, params, (k - 1) as nat, n) {
            Some((t1, n1)) => {
                let para = params[k - 1];
                if k == params.len() {
                    let entry = spec_entry_name(para);
                    match spec_substitute(t1, para, spec_variable(entry), n1) {
                        Some((body, n2)) => Some(
                            (
                                SpecTerm::Abstraction {
                                    binds: entry,
                                    term: Box::new(body),
                                    location: SpecLocation::Main,
                                },
                                n2,
                            ),
                        ),
                        None => None,
                    }
                } else {
                    Some(
                        (
                            SpecTerm::Abstraction {
                                binds: para,
                                term: Box::new(t1),
                                location: SpecLocation::Main,
                            },
                            n1,
                        ),
                    )
                }
            },
            None => None,
        }
    }
}

/// Where binding all the parameters succeeds, binding a prefix of them succeeds too.
pub proof fn lemma_binders_prefix(t: SpecTerm, params: Seq<Seq<char>>, k: nat, k2: nat, n: u64)
    requires
        k2 <= k,
        spec_parameter_binders(t, params, k, n) is Some,
    ensures
        spec_parameter_binders(t, params, k2, n) is Some,
    decreases k,
{
    if k2 < k {
        lemma_binders_prefix(t, params, (k - 1) as nat, k2, n);
    }
}

/// The name a recursive function calls itself by inside its fixed point.
pub open spec fn spec_self_name(name: Seq<char>) -> Seq<char> {
    name + "_2_f"@
}

/// The term a declared function is bound to; `None` where it has no body or a renaming
/// meets an operation.
pub open spec fn spec_function_term(f: SpecFunction, n: u64) -> Option<(SpecTerm, u64)> {
    match f.term {
        Some(t) => {
            let (t1, n1) = spec_parameter_updates(t, f.parameters, f.parameters.len(), n);
            match spec_parameter_binders(t1, f.parameters, f.parameters.len(), n1) {
                Some((t2, n2)) => if f.recurses {
                    let own = spec_self_name(f.name);
                    match spec_substitute(t2, spec_bound_name(f.name), spec_variable(own), n2) {
                        Some((body, n3)) => Some(
                            (
                                SpecTerm::Application {
                                    function: Box::new(
                                        spec_y(spec_var_name(n3), spec_var_name(spec_next(n3))),
                                    ),
                                    argument: Box::new(
                                        SpecTerm::Abstraction {
                                            binds: own,
                                            term: Box::new(body),
                                            location: SpecLocation::Main,
                                        },
                                    ),
                                    location: SpecLocation::Main,
                                },
                                spec_next(spec_next(n3)),
                            ),
                        ),
                        None => None,
                    }
                } else {
                    Some((t2, n2))
                },
                None => None,
            }
        },
        None => None,
    }
}

/// The program term with the declared functions bound around it, the last one innermost.
pub open spec fn spec_link_functions(prog: SpecTerm, fs: Seq<SpecFunction>, n: u64) -> Option<
    (SpecTerm, u64),
>
    decreases fs.len(),
{
    if fs.len() == 0 {
        Some((prog, n))
    } else {
        let f = fs.last();
        match spec_function_term(f, n) {
            Some((t, n1)) => spec_link_functions(
                SpecTerm::Application {
                    function: Box::new(
                        SpecTerm::Abstraction {
                            binds: spec_bound_name(f.name),
                            term: Box::new(prog),
                            location: SpecLocation::Main,
                        },
                    ),
                    argument: Box::new(t),
                    location: SpecLocation::Main,
                },
                fs.drop_last(),
                n1,
            ),
            None => None,
        }
    }
}

/// Program = (declaration)* EOF: its statements in turn, inside the bindings of the
/// declared functions.
pub open spec fn rule_program(ts: Seq<SpecToken>, p: SpecParser) -> Parsed<SpecTerm> {
    match rule_program_rest(ts, p, Seq::empty()) {
        Some((Ok(statements), q)) => if statements.len() == 0 {
            spec_fail(ts, q, "expected at least one declaration or statement"@)
        } else {
            match spec_link_functions(spec_fold_statements(statements), q.functions, q.next_var) {
                Some((term, n)) => Some((Ok(term), spec_with_names(q, n))),
                None => None,
            }
        },
        Some((Err(e), q)) => Some((Err(e), q)),
        None => None,
    }
}

/// Reading the declarations of a program succeeds only on reaching the end of its input.
pub proof fn lemma_program_rest_reaches_eof(ts: Seq<SpecToken>, p: SpecParser, statements: Seq<SpecTerm>)
    requires
        rule_program_rest(ts, p, statements) matches Some((Ok(_), _)),
    ensures
        ({
            let q = rule_program_rest(ts, p, statements).unwrap().1;
            &&& 0 <= q.index < ts.len()
            &&& ts[q.index].token_type == SpecTokenType::EOF
        }),
    decreases ts.len() - p.index,
{
    let t = spec_current(ts, p).unwrap();
    if t.token_type != SpecTokenType::EOF {
        if t.token_type == SpecTokenType::Fn {
            let q = rule_fn_decl(ts, p).unwrap().1;
            lemma_program_rest_reaches_eof(ts, q, statements);
        } else {
            let (r, q) = rule_statement(ts, p).unwrap();
            lemma_program_rest_reaches_eof(ts, q, statements.push(r->Ok_0));
        }
    }
}

/// A program parses only when every token up to the end of the input has been read: the
/// parser stops at the end-of-input token.
pub proof fn lemma_program_reads_to_eof(ts: Seq<SpecToken>, p: SpecParser)
    requires
        rule_program(ts, p) matches Some((Ok(_), _)),
    ensures
        ({
            let q = rule_program(ts, p).unwrap().1;
            &&& 0 <= q.index < ts.len()
            &&& ts[q.index].token_type == SpecTokenType::EOF
        }),
{
    lemma_program_rest_reaches_eof(ts, p, Seq::empty());
}

/// The state after a rule lies between the state before it and the end of the tokens.
pub open spec fn spec_advances<T>(ts: Seq<SpecToken>, p: SpecParser, r: Parsed<T>) -> bool {
    match r {
        Some((_, q)) => p.index <= q.index <= ts.len(),
        None => true,
    }
}

/// Every FMC rule reads forward: the state after it lies between the state before it and
/// the end of the tokens, so the guard `spec_after` never cuts one of their outcomes.
pub proof fn lemma_fmc_rules_advance(ts: Seq<SpecToken>, p: SpecParser, rule: nat, term: SpecTerm)
    ensures
        rule == 0 ==> spec_advances(ts, p, rule_sequence(ts, p)),
        rule == 1 ==> spec_advances(ts, p, rule_loop_term(ts, p)),
        rule == 2 ==> spec_advances(ts, p, rule_loop_rest(ts, p, term)),
        rule == 3 ==> spec_advances(ts, p, rule_atom(ts, p)),
        rule == 4 ==> spec_advances(ts, p, rule_abstraction(ts, p)),
    decreases ts.len() - p.index, if rule == 0 {
        4nat
    } else if rule == 1 {
        3nat
    } else if rule == 2 || rule == 3 {
        2nat
    } else {
        1nat
    },
{
    if rule == 1 {
        if let Some((Ok(t), q)) = spec_after(ts, p, rule_atom(ts, p)) {
            lemma_fmc_rules_advance(ts, q, 2, t);
        }
    } else if rule == 2 {
        if let Some(t) = spec_current(ts, p) {
            if t.token_type == SpecTokenType::Caret {
                if let Some((Ok(branch), q)) = rule_choice(ts, spec_advanced(p)) {
                    if p.index < q.index <= ts.len() {
                        lemma_fmc_rules_advance(
                            ts,
                            q,
                            2,
                            SpecTerm::Loop { term: Box::new(term), branch },
                        );
                    }
                }
            }
        }
    } else if rule == 3 {
        if let Some(t) = spec_current(ts, p) {
            if spec_atom_special(t.token_type) is None {
                lemma_fmc_rules_advance(ts, p, 4, term);
            }
        }
    }
}

/// expression reads forward.
pub proof fn lemma_expression_advances(ts: Seq<SpecToken>, p: SpecParser)
    ensures
        spec_advances(ts, p, rule_expression(ts, p)),
    decreases ts.len() - p.index, 32nat,
{
    lemma_assignment_advances(ts, p);
}

/// assignment reads forward.
pub proof fn lemma_assignment_advances(ts: Seq<SpecToken>, p: SpecParser)
    ensures
        spec_advances(ts, p, rule_assignment(ts, p)),
    decreases ts.len() - p.index, 31nat,
{
    lemma_binary_advances(ts, p, 0);
}

/// A binary level reads forward.
pub proof fn lemma_binary_advances(ts: Seq<SpecToken>, p: SpecParser, k: nat)
    ensures
        spec_advances(ts, p, rule_binary(ts, p, k)),
    decreases ts.len() - p.index, spec_binary_rank(k),
{
    if let Some((Ok(t), q)) = spec_after(ts, p, rule_operand(ts, p, k)) {
        lemma_binary_rest_advances(ts, q, k, t);
    }
}

/// The rest of a binary level reads forward.
pub proof fn lemma_binary_rest_advances(ts: Seq<SpecToken>, p: SpecParser, k: nat, term: SpecTerm)
    ensures
        spec_advances(ts, p, rule_binary_rest(ts, p, k, term)),
    decreases ts.len() - p.index, (spec_binary_rank(k) - 1) as nat,
{
    if let Some(t) = spec_current(ts, p) {
        if let Some(op) = spec_binary_op(k, t.token_type) {
            let q = spec_advanced(p);
            if let Some((Ok(next), q1)) = spec_after(ts, q, rule_operand(ts, q, k)) {
                lemma_binary_rest_advances(ts, q1, k, spec_binary_term(term, next, op));
            }
        }
    }
}

/// The operand of a binary level reads forward.
pub proof fn lemma_operand_advances(ts: Seq<SpecToken>, p: SpecParser, k: nat)
    ensures
        spec_advances(ts, p, rule_operand(ts, p, k)),
    decreases ts.len() - p.index, (spec_binary_rank(k) - 1) as nat,
{
    if k < 5 {
        lemma_binary_advances(ts, p, k + 1);
    } else {
        lemma_unary_advances(ts, p);
    }
}

/// unary reads forward.
pub proof fn lemma_unary_advances(ts: Seq<SpecToken>, p: SpecParser)
    ensures
        spec_advances(ts, p, rule_unary(ts, p)),
    decreases ts.len() - p.index, 12nat,
{
    lemma_call_advances(ts, p);
}

/// call reads forward.
pub proof fn lemma_call_advances(ts: Seq<SpecToken>, p: SpecParser)
    ensures
        spec_advances(ts, p, rule_call(ts, p)),
    decreases ts.len() - p.index, 11nat,
{
    if let Some(t) = spec_current(ts, p) {
        match t.token_type {
            SpecTokenType::Identifier(name) => {
                if let Some((Ok(_), q)) = spec_consume(
                    ts,
                    spec_advanced(p),
                    SpecTokenType::LParen,
                    "expected `(` after function name in call"@,
                ) {
                    if let Some(j) = spec_find_function(q.functions, name) {
                        if p.index < q.index <= ts.len() {
                            lemma_call_known_advances(ts, q, name, j);
                        }
                    }
                }
            },
            _ => {
                lemma_primary_advances(ts, p);
            },
        }
    }
}

/// The arguments of a call read forward.
pub proof fn lemma_call_known_advances(ts: Seq<SpecToken>, q: SpecParser, fn_name: Seq<char>, i: int)
    ensures
        spec_advances(ts, q, rule_call_known(ts, q, fn_name, i)),
    decreases ts.len() - q.index, 34nat,
{
}

/// arguments read forward.
pub proof fn lemma_arguments_advances(ts: Seq<SpecToken>, p: SpecParser)
    ensures
        spec_advances(ts, p, rule_arguments(ts, p)),
    decreases ts.len() - p.index, 33nat,
{
    if let Some((Ok(first), q)) = spec_after(ts, p, rule_expression(ts, p)) {
        lemma_arguments_rest_advances(ts, q, seq![first]);
    }
}

/// The rest of an argument list reads forward.
pub proof fn lemma_arguments_rest_advances(ts: Seq<SpecToken>, p: SpecParser, args: Seq<SpecTerm>)
    ensures
        spec_advances(ts, p, rule_arguments_rest(ts, p, args)),
    decreases ts.len() - p.index, 1nat,
{
    if let Some(t) = spec_current(ts, p) {
        if t.token_type == SpecTokenType::Comma {
            let q = spec_advanced(p);
            if let Some((Ok(next), q1)) = spec_after(ts, q, rule_expression(ts, q)) {
                lemma_arguments_rest_advances(ts, q1, args.push(next));
            }
        }
    }
}

/// primary reads forward.
pub proof fn lemma_primary_advances(ts: Seq<SpecToken>, p: SpecParser)
    ensures
        spec_advances(ts, p, rule_primary(ts, p)),
    decreases ts.len() - p.index, 10nat,
{
    if let Some((Ok(_), q)) = spec_consume(
        ts,
        p,
        SpecTokenType::Backslash,
        "expected `\\` to begin embedded FMC term"@,
    ) {
        lemma_fmc_rules_advance(ts, q, 0, SpecTerm::Choice(spec_skip()));
    }
}

/// A statement reads forward.
pub proof fn lemma_statement_advances(ts: Seq<SpecToken>, p: SpecParser)
    ensures
        spec_advances(ts, p, rule_statement(ts, p)),
    decreases ts.len() - p.index, 30nat,
{
    if let Some(t) = spec_current(ts, p) {
        if t.token_type == SpecTokenType::LBrace {
            lemma_block_advances(ts, p);
        }
    }
}

/// A block reads forward.
pub proof fn lemma_block_advances(ts: Seq<SpecToken>, p: SpecParser)
    ensures
        spec_advances(ts, p, rule_block(ts, p)),
    decreases ts.len() - p.index, 29nat,
{
    if let Some((Ok(_), q)) = spec_consume(
        ts,
        p,
        SpecTokenType::LBrace,
        "expected `{` to begin block"@,
    ) {
        if p.index < q.index <= ts.len() {
            lemma_block_rest_advances(ts, q, Seq::empty());
        }
    }
}

/// The statements of a block read forward.
pub proof fn lemma_block_rest_advances(ts: Seq<SpecToken>, p: SpecParser, block: Seq<SpecTerm>)
    ensures
        spec_advances(ts, p, rule_block_rest(ts, p, block)),
    decreases ts.len() - p.index, 31nat,
{
    if let Some(t) = spec_current(ts, p) {
        if t.token_type != SpecTokenType::RBrace && t.token_type != SpecTokenType::EOF {
            if let Some((Ok(statement), q)) = spec_after(ts, p, rule_statement(ts, p)) {
                if p.index < q.index {
                    lemma_block_rest_advances(ts, q, block.push(statement));
                }
            }
        }
    }
}

/// The names after the first parameter read forward.
pub proof fn lemma_parameters_rest_advances(ts: Seq<SpecToken>, p: SpecParser, params: Seq<Seq<char>>)
    ensures
        spec_advances(ts, p, rule_parameters_rest(ts, p, params)),
    decreases ts.len() - p.index,
{
    if let Some(t) = spec_current(ts, p) {
        if t.token_type == SpecTokenType::Comma {
            let q = spec_advanced(p);
            if let Some(t1) = spec_current(ts, q) {
                if let SpecTokenType::Identifier(next) = t1.token_type {
                    if q.index < ts.len() {
                        lemma_parameters_rest_advances(ts, spec_advanced(q), params.push(next));
                    }
                }
            }
        }
    }
}

/// A function declaration reads forward.
pub proof fn lemma_fn_decl_advances(ts: Seq<SpecToken>, p: SpecParser)
    ensures
        spec_advances(ts, p, rule_fn_decl(ts, p)),
{
    if let Some((Ok(_), q)) = spec_consume(
        ts,
        p,
        SpecTokenType::Fn,
        "expected `fn` to begin function declaration"@,
    ) {
        if let Some(t) = spec_current(ts, q) {
            if let SpecTokenType::Identifier(first) = t.token_type {
                let q1 = spec_advanced(q);
                if let Some((Ok(_), q2)) = spec_consume(
                    ts,
                    q1,
                    SpecTokenType::LParen,
                    "expected `(` after function name"@,
                ) {
                    if let Some(t2) = spec_current(ts, q2) {
                        if let SpecTokenType::Identifier(param) = t2.token_type {
                            lemma_parameters_rest_advances(ts, spec_advanced(q2), seq![param]);
                        }
                    }
                    let params = match spec_current_is(ts, q2, SpecTokenType::RParen) {
                        Some(true) => Some((Ok(Seq::<Seq<char>>::empty()), q2)),
                        Some(false) => rule_parameters(ts, q2),
                        None => None,
                    };
                    if let Some((Ok(parameters), q3)) = params {
                        if let Some((Ok(_), q4)) = spec_consume(
                            ts,
                            q3,
                            SpecTokenType::RParen,
                            "expected `)` after function parameters"@,
                        ) {
                            lemma_block_advances(
                                ts,
                                SpecParser {
                                    index: q4.index,
                                    functions: q4.functions.push(
                                        SpecFunction {
                                            name: first,
                                            parameters,
                                            term: None,
                                            recurses: false,
                                        },
                                    ),
                                    next_var: q4.next_var,
                                },
                            );
                        }
                    }
                }
            }
        }
    }
}

/// The declarations of a program read forward.
pub proof fn lemma_program_rest_advances(ts: Seq<SpecToken>, p: SpecParser, statements: Seq<SpecTerm>)
    ensures
        spec_advances(ts, p, rule_program_rest(ts, p, statements)),
    decreases ts.len() - p.index,
{
    if let Some(t) = spec_current(ts, p) {
        if t.token_type != SpecTokenType::EOF {
            if t.token_type == SpecTokenType::Fn {
                lemma_fn_decl_advances(ts, p);
                if let Some((Ok(_), q)) = rule_fn_decl(ts, p) {
                    if p.index < q.index <= ts.len() {
                        lemma_program_rest_advances(ts, q, statements);
                    }
                }
            } else {
                lemma_statement_advances(ts, p);
                if let Some((Ok(statement), q)) = rule_statement(ts, p) {
                    if p.index < q.index <= ts.len() {
                        lemma_program_rest_advances(ts, q, statements.push(statement));
                    }
                }
            }
        }
    }
}

/// A program reads forward: the state after it lies between the state before it and the
/// end of the tokens. With the lemmas of the other rules, this shows that the guard
/// `spec_after` keeps every outcome it is given.
pub proof fn lemma_program_advances(ts: Seq<SpecToken>, p: SpecParser)
    ensures
        spec_advances(ts, p, rule_program(ts, p)),
{
    lemma_program_rest_advances(ts, p, Seq::empty());
}

/// Binary operators of one level associate to the left: where the tokens read
/// `a op1 b op2 c` at level `k` and no operator of that level follows, the expression is
/// `(a op1 b) op2 c`: `a` and `b` are evaluated and combined by `op1`, then `c`, and the two
/// results combined by `op2`.
pub proof fn lemma_binary_left_associative(
    ts: Seq<SpecToken>,
    p: SpecParser,
    k: nat,
    a: SpecTerm,
    q1: SpecParser,
    op1: Special,
    b: SpecTerm,
    q2: SpecParser,
    op2: Special,
    c: SpecTerm,
    q3: SpecParser,
)
    requires
        rule_operand(ts, p, k) == Some((Ok::<SpecTerm, SpecParserError>(a), q1)),
        0 <= p.index <= q1.index < ts.len(),
        spec_binary_op(k, ts[q1.index].token_type) == Some(op1),
        rule_operand(ts, spec_advanced(q1), k) == Some((Ok::<SpecTerm, SpecParserError>(b), q2)),
        q1.index + 1 <= q2.index < ts.len(),
        spec_binary_op(k, ts[q2.index].token_type) == Some(op2),
        rule_operand(ts, spec_advanced(q2), k) == Some((Ok::<SpecTerm, SpecParserError>(c), q3)),
        q2.index + 1 <= q3.index < ts.len(),
        spec_binary_op(k, ts[q3.index].token_type) is None,
    ensures
        rule_binary(ts, p, k) == Some(
            (
                Ok::<SpecTerm, SpecParserError>(
                    SpecTerm::Case {
                        term: Box::new(
                            SpecTerm::Case {
                                term: Box::new(a),
                                exit: spec_skip(),
                                then: Box::new(
                                    SpecTerm::Case {
                                        term: Box::new(b),
                                        exit: spec_skip(),
                                        then: Box::new(SpecTerm::Special(op1)),
                                    },
                                ),
                            },
                        ),
                        exit: spec_skip(),
                        then: Box::new(
                            SpecTerm::Case {
                                term: Box::new(c),
                                exit: spec_skip(),
                                then: Box::new(SpecTerm::Special(op2)),
                            },
                        ),
                    },
                ),
                q3,
            ),
        ),
{
    let ab = spec_binary_term(a, b, op1);
    assert(rule_binary_rest(ts, q3, k, spec_binary_term(ab, c, op2)) == Some(
        (Ok::<SpecTerm, SpecParserError>(spec_binary_term(ab, c, op2)), q3),
    ));
    assert(rule_binary_rest(ts, q2, k, ab) == rule_binary_rest(ts, q3, k, spec_binary_term(ab, c, op2)));
    assert(rule_binary_rest(ts, q1, k, a) == rule_binary_rest(ts, q2, k, ab));
}

/// Operators of one level fold to the left: meeting an operator of level `k` after the term
/// read so far, the parser reads the next operand and goes on with the term read so far as
/// the left operand of that operator, whatever follows.
pub proof fn lemma_binary_rest_folds_left(
    ts: Seq<SpecToken>,
    p: SpecParser,
    k: nat,
    so_far: SpecTerm,
    op: Special,
    next: SpecTerm,
    q1: SpecParser,
)
    requires
        0 <= p.index < ts.len(),
        spec_binary_op(k, ts[p.index].token_type) == Some(op),
        rule_operand(ts, spec_advanced(p), k) == Some((Ok::<SpecTerm, SpecParserError>(next), q1)),
        p.index + 1 <= q1.index <= ts.len(),
    ensures
        rule_binary_rest(ts, p, k, so_far) == rule_binary_rest(
            ts,
            q1,
            k,
            SpecTerm::Case {
                term: Box::new(so_far),
                exit: spec_skip(),
                then: Box::new(
                    SpecTerm::Case {
                        term: Box::new(next),
                        exit: spec_skip(),
                        then: Box::new(SpecTerm::Special(op)),
                    },
                ),
            },
        ),
{
}

/// The token at `q` is no operator of binary level `k` or of any tighter level.
pub open spec fn spec_no_operator_from(ts: Seq<SpecToken>, q: SpecParser, k: nat) -> bool {
    &&& 0 <= q.index < ts.len()
    &&& forall|j: nat| k <= j <= 5 ==> #[trigger] spec_binary_op(j, ts[q.index].token_type) is None
}

/// Tighter operators bind first: binary level `k` parsed with success stops at a token
/// that is no operator of level `k` or of any tighter level, so every such operator after
/// its first operand has been taken into the term.
pub proof fn lemma_binary_stops(ts: Seq<SpecToken>, p: SpecParser, k: nat)
    requires
        k <= 5,
    ensures
        rule_binary(ts, p, k) matches Some((Ok(_), q)) ==> spec_no_operator_from(ts, q, k),
    decreases ts.len() - p.index, spec_binary_rank(k),
{
    lemma_operand_advances(ts, p, k);
    if let Some((Ok(t), q)) = spec_after(ts, p, rule_operand(ts, p, k)) {
        if k < 5 {
            lemma_binary_stops(ts, p, k + 1);
        }
        lemma_binary_rest_stops(ts, q, k, t);
    }
}

/// The rest of binary level `k`, started at a token that is no operator of a tighter level,
/// stops with success only at a token that is no operator of level `k` or tighter.
pub proof fn lemma_binary_rest_stops(ts: Seq<SpecToken>, p: SpecParser, k: nat, term: SpecTerm)
    requires
        k <= 5,
        0 <= p.index < ts.len() ==> forall|j: nat|
            k < j <= 5 ==> #[trigger] spec_binary_op(j, ts[p.index].token_type) is None,
    ensures
        rule_binary_rest(ts, p, k, term) matches Some((Ok(_), q)) ==> spec_no_operator_from(
            ts,
            q,
            k,
        ),
    decreases ts.len() - p.index, (spec_binary_rank(k) - 1) as nat,
{
    if let Some(t) = spec_current(ts, p) {
        if let Some(op) = spec_binary_op(k, t.token_type) {
            let q = spec_advanced(p);
            lemma_operand_advances(ts, q, k);
            if let Some((Ok(next), q1)) = spec_after(ts, q, rule_operand(ts, q, k)) {
                if k < 5 {
                    lemma_binary_stops(ts, q, k + 1);
                }
                lemma_binary_rest_stops(ts, q1, k, spec_binary_term(term, next, op));
            }
        } else {
            assert forall|j: nat| k <= j <= 5 implies #[trigger] spec_binary_op(
                j,
                ts[p.index].token_type,
            ) is None by {
                if j > k {
                }
            }
        }
    }
}

/// The binary levels from loosest to tightest: `||`; `&&`; `==` and `!=`; `<`, `>`, `<=`
/// and `>=`; `+` and `-`; `*`, `/` and `%`. Each operator token belongs to one level only.
pub proof fn lemma_operator_levels(tt: SpecTokenType, j1: nat, j2: nat)
    ensures
        spec_binary_op(0, SpecTokenType::Or) == Some(Special::LogicOr),
        spec_binary_op(1, SpecTokenType::And) == Some(Special::LogicAnd),
        spec_binary_op(2, SpecTokenType::Equal) == Some(Special::Equal),
        spec_binary_op(2, SpecTokenType::NotEqual) == Some(Special::NotEqual),
        spec_binary_op(3, SpecTokenType::LAngleBracket) == Some(Special::LessThan),
        spec_binary_op(3, SpecTokenType::RAngleBracket) == Some(Special::GreaterThan),
        spec_binary_op(3, SpecTokenType::LessThanEqual) == Some(Special::LessThanEqual),
        spec_binary_op(3, SpecTokenType::GreaterThanEqual) == Some(Special::GreaterThanEqual),
        spec_binary_op(4, SpecTokenType::Plus) == Some(Special::Addition),
        spec_binary_op(4, SpecTokenType::Minus) == Some(Special::Subraction),
        spec_binary_op(5, SpecTokenType::Star) == Some(Special::Multiplication),
        spec_binary_op(5, SpecTokenType::Divide) == Some(Special::Division),
        spec_binary_op(5, SpecTokenType::Modulo) == Some(Special::Modulo),
        j1 <= 5 && j2 <= 5 && spec_binary_op(j1, tt) is Some && spec_binary_op(j2, tt) is Some
            ==> j1 == j2,
{
}

} // verus!
