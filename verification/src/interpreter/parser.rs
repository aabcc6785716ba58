use vstd::prelude::*;

use crate::fmc_core::choice::{Choice, Constant, Exception};
use crate::fmc_core::location::Location;
use crate::fmc_core::operation::Operation;
use crate::fmc_core::special::Special;
use crate::fmc_core::term::{
    op_view, option_view, spec_variable, terms_view, spec_identity, spec_next, spec_var_name, term_view, NameSupply, Term,
};
use crate::fmc_core::choice::{spec_skip, SpecChoice};
use crate::fmc_core::location::SpecLocation;
use crate::fmc_core::term::{SpecOperation, SpecTerm};
use crate::interpreter::grammar::{
    rule_abstraction, rule_arguments, rule_arguments_rest, rule_assignment, rule_atom,
    rule_binary, rule_binary_rest, rule_call, rule_choice, rule_embedded_fmc, rule_expression,
    rule_location, rule_loop_rest, rule_loop_term, rule_operand, rule_primary, rule_sequence,
    rule_unary, spec_apply_arguments, spec_arity_message, spec_atom_special, spec_binary_op,
    spec_binary_rank, spec_binary_term, spec_bound_name, spec_find_function, spec_is_unary, spec_mark_recursive,
    spec_unary_term, spec_advanced, rule_call_known, rule_fn_decl, rule_function,
    rule_parameters, rule_parameters_rest, rule_program, rule_program_rest, spec_entry_name,
    spec_function_body, spec_function_term, spec_link_functions, spec_parameter_binders,
    spec_parameter_updates, spec_self_name, spec_set_terms, spec_with_names, rule_block,
    lemma_binders_prefix, spec_parameter_update, rule_block_rest, rule_break, rule_condition,
    rule_do_while, rule_expr_stmt, rule_if, rule_print, rule_return, rule_statement,
    rule_while_do, spec_fold_block, spec_fold_statements, spec_consume, spec_error_at, SpecFunction,
    SpecParser, SpecParserError,
};
use crate::interpreter::lexer::tokens_view;
use crate::interpreter::token::{SpecToken, Token, TokenType};
use crate::text::{concat, owned, push_text, spec_digits, text_eq, usize_text};

verus! {

/// Reads a program from its tokens into a term.
pub struct Parser {
    tokens: Vec<Token>,
    current_index: usize,
    functions: Vec<Function>,
    names: NameSupply,
}

/// An error of the parser: where it was found, what was expected and the token found.
#[derive(Debug)]
pub struct ParserError {
    pub line: usize,
    pub column: usize,
    pub message: String,
    pub found: Token,
}

/// A function declared by the program.
#[derive(Debug)]
struct Function {
    name: String,
    parameters: Vec<String>,
    term: Option<Term>,
    recurses: bool,
}

impl View for ParserError {
    type V = SpecParserError;

    open spec fn view(&self) -> SpecParserError {
        SpecParserError {
            line: self.line as nat,
            column: self.column as nat,
            message: self.message@,
            found: self.found@,
        }
    }
}

impl Clone for ParserError {
    fn clone(&self) -> (r: Self)
        ensures
            r@ == self@,
    {
        ParserError {
            line: self.line,
            column: self.column,
            message: self.message.clone(),
            found: self.found.clone(),
        }
    }
}

impl View for Function {
    type V = SpecFunction;

    closed spec fn view(&self) -> SpecFunction {
        SpecFunction {
            name: self.name@,
            parameters: self.parameters.deep_view(),
            term: option_view(self.term),
            recurses: self.recurses,
        }
    }
}

/// The values of the declared functions.
spec fn functions_view(v: Seq<Function>) -> Seq<SpecFunction> {
    Seq::new(v.len(), |i: int| v[i]@)
}

impl View for Parser {
    type V = SpecParser;

    closed spec fn view(&self) -> SpecParser {
        SpecParser {
            index: self.current_index as int,
            functions: functions_view(self.functions@),
            next_var: self.names.next_var,
        }
    }
}

/// The value of a parse outcome that carries a term.
pub open spec fn term_outcome(r: Result<Term, ParserError>) -> Result<SpecTerm, SpecParserError> {
    match r {
        Ok(t) => Ok(t@),
        Err(e) => Err(e@),
    }
}

/// The value of a parse outcome that carries a list of terms.
pub open spec fn terms_outcome(r: Result<Vec<Term>, ParserError>) -> Result<
    Seq<SpecTerm>,
    SpecParserError,
> {
    match r {
        Ok(v) => Ok(terms_view(v@)),
        Err(e) => Err(e@),
    }
}

/// The value of a parse outcome that carries a list of names.
pub open spec fn names_outcome(r: Result<Vec<String>, ParserError>) -> Result<
    Seq<Seq<char>>,
    SpecParserError,
> {
    match r {
        Ok(v) => Ok(v.deep_view()),
        Err(e) => Err(e@),
    }
}

/// The value of a parse outcome that carries nothing.
pub open spec fn unit_outcome(r: Result<(), ParserError>) -> Result<(), SpecParserError> {
    match r {
        Ok(_) => Ok(()),
        Err(e) => Err(e@),
    }
}

/// The value of a parse outcome that carries a choice.
pub open spec fn choice_outcome(r: Result<Choice, ParserError>) -> Result<
    SpecChoice,
    SpecParserError,
> {
    match r {
        Ok(c) => Ok(c@),
        Err(e) => Err(e@),
    }
}

/// The value of a parse outcome that carries a location.
pub open spec fn location_outcome(r: Result<Location, ParserError>) -> Result<
    SpecLocation,
    SpecParserError,
> {
    match r {
        Ok(l) => Ok(l@),
        Err(e) => Err(e@),
    }
}

/// The value of a parse outcome that carries a token.
pub open spec fn token_outcome(r: Result<Token, ParserError>) -> Result<
    SpecToken,
    SpecParserError,
> {
    match r {
        Ok(t) => Ok(t@),
        Err(e) => Err(e@),
    }
}

impl Parser {
    /// The values of the tokens being read.
    pub closed spec fn toks(&self) -> Seq<SpecToken> {
        tokens_view(self.tokens@)
    }

    /// The counter of fresh location names the parser carries.
    pub closed spec fn next_location(&self) -> u64 {
        self.names.next_location
    }

    /// Whether the parser reads the same tokens as `other`.
    pub closed spec fn same_tokens(&self, other: &Parser) -> bool {
        self.tokens@ == other.tokens@
    }

    /// The token `n` places after the current one.
    fn token_at(&self, n: usize) -> (t: &Token)
        requires
            self.current_index + n < self.tokens.len(),
        ensures
            t@ == self.toks()[self.current_index + n],
    {
        &self.tokens[self.current_index + n]
    }

    /// Moves to the next token.
    fn advance(&mut self)
        requires
            old(self).current_index < old(self).tokens.len(),
        ensures
            final(self)@ == spec_advanced(old(self)@),
            final(self).same_tokens(old(self)),
            final(self).toks() == old(self).toks(),
    {
        self.current_index = self.current_index + 1;
    }

    /// An error at the current token.
    fn error_here(&self, message: String) -> (e: ParserError)
        requires
            self.current_index < self.tokens.len(),
        ensures
            e@ == spec_error_at(self.toks()[self.current_index as int], message@),
    {
        let token = self.tokens[self.current_index].clone();
        ParserError { line: token.line, column: token.column, message, found: token }
    }

    /// Whether the current token has the given kind.
    fn current_is(&self, tt: TokenType) -> (r: bool)
        requires
            self.current_index < self.tokens.len(),
        ensures
            r == (self.toks()[self.current_index as int].token_type == tt@),
    {
        self.tokens[self.current_index].token_type.same(&tt)
    }

    /// Consumes a token of the given kind, or fails with the message.
    fn consume(&mut self, tt: TokenType, message: &str) -> (r: Result<Token, ParserError>)
        requires
            spec_consume(old(self).toks(), old(self)@, tt@, message@) is Some,
        ensures
            final(self).same_tokens(old(self)),
            final(self).toks() == old(self).toks(),
            spec_consume(old(self).toks(), old(self)@, tt@, message@) == Some(
                (token_outcome(r), final(self)@),
            ),
    {
        if !self.current_is(tt.clone()) {
            let mut text = concat(message, "; expected ");
            push_text(&mut text, tt.kind_name());
            return Err(self.error_here(text));
        }
        let token = self.tokens[self.current_index].clone();
        self.advance();
        Ok(token)
    }

    /// choice = NUMBER | "*" | true | false | break | return
    fn choice(&mut self) -> (r: Result<Choice, ParserError>)
        requires
            rule_choice(old(self).toks(), old(self)@) is Some,
        ensures
            final(self).same_tokens(old(self)),
            final(self).toks() == old(self).toks(),
            rule_choice(old(self).toks(), old(self)@) == Some((choice_outcome(r), final(self)@)),
    {
        let choice = match &self.tokens[self.current_index].token_type {
            TokenType::Integer(n) => Choice::Constant(Constant::Integer(*n)),
            TokenType::True => Choice::Constant(Constant::Boolean(true)),
            TokenType::False => Choice::Constant(Constant::Boolean(false)),
            TokenType::Break => Choice::Exception(Exception::Break),
            TokenType::Return => Choice::Exception(Exception::Return),
            TokenType::Skip => Choice::Exception(Exception::Skip),
            _ => return Err(self.error_here(owned("expected choice value"))),
        };
        self.advance();
        Ok(choice)
    }

    /// location = "_" | IDENT
    fn location(&mut self) -> (r: Result<Location, ParserError>)
        requires
            rule_location(old(self).toks(), old(self)@) is Some,
        ensures
            final(self).same_tokens(old(self)),
            final(self).toks() == old(self).toks(),
            rule_location(old(self).toks(), old(self)@) == Some(
                (location_outcome(r), final(self)@),
            ),
    {
        let location = match &self.tokens[self.current_index].token_type {
            TokenType::Identifier(ident) => {
                if text_eq(ident.as_str(), "in") {
                    Location::Input
                } else if text_eq(ident.as_str(), "out") {
                    Location::Output
                } else if text_eq(ident.as_str(), "rnd_b") {
                    Location::RndBool
                } else if text_eq(ident.as_str(), "rnd_f") {
                    Location::RndFloat
                } else {
                    Location::Cell(ident.clone())
                }
            },
            _ => return Err(self.error_here(owned("expected location name"))),
        };
        self.advance();
        Ok(location)
    }
    /// The primitive that a token stands for where it is read as an FMC atom.
    fn atom_special(tt: &TokenType) -> (r: Option<Special>)
        ensures
            r == spec_atom_special(tt@),
    {
        match tt {
            TokenType::RAngleBracket => Some(Special::GreaterThan),
            TokenType::Or => Some(Special::LogicOr),
            TokenType::And => Some(Special::LogicAnd),
            TokenType::NotEqual => Some(Special::NotEqual),
            TokenType::Equal => Some(Special::Equal),
            TokenType::GreaterThanEqual => Some(Special::GreaterThanEqual),
            TokenType::LessThanEqual => Some(Special::LessThanEqual),
            TokenType::Plus => Some(Special::Addition),
            TokenType::Minus => Some(Special::Subraction),
            TokenType::Divide => Some(Special::Division),
            TokenType::Modulo => Some(Special::Modulo),
            TokenType::Not => Some(Special::LogicNot),
            TokenType::Star => Some(Special::Multiplication),
            TokenType::Int => Some(Special::IntCast),
            _ => None,
        }
    }

    /// sequence = loop_term (";" (choice "->")? sequence)?
    fn sequence(&mut self) -> (r: Result<Term, ParserError>)
        requires
            rule_sequence(old(self).toks(), old(self)@) is Some,
        ensures
            final(self).same_tokens(old(self)),
            final(self).toks() == old(self).toks(),
            rule_sequence(old(self).toks(), old(self)@) == Some((term_outcome(r), final(self)@)),
        decreases old(self).toks().len() - old(self)@.index, 4nat,
    {
        let left = match self.loop_term() {
            Ok(t) => t,
            Err(e) => return Err(e),
        };
        if self.current_is(TokenType::SemiColon) {
            self.advance();
            let labelled = if self.tokens[self.current_index].token_type.is_choice() {
                self.token_at(1).token_type.same(&TokenType::Arrow)
            } else {
                false
            };
            if labelled {
                let exit = match self.choice() {
                    Ok(c) => c,
                    Err(e) => return Err(e),
                };
                match self.consume(TokenType::Arrow, "expected `->` after choice in case branch") {
                    Ok(_) => {},
                    Err(e) => return Err(e),
                }
                let then = match self.sequence() {
                    Ok(t) => t,
                    Err(e) => return Err(e),
                };
                Ok(Term::Case { term: Box::new(left), exit, then: Box::new(then) })
            } else {
                let then = match self.sequence() {
                    Ok(t) => t,
                    Err(e) => return Err(e),
                };
                Ok(Term::Case { term: Box::new(left), exit: Choice::skip(), then: Box::new(then) })
            }
        } else {
            Ok(left)
        }
    }

    /// loop_term = atom ("^" Choice)*
    fn loop_term(&mut self) -> (r: Result<Term, ParserError>)
        requires
            rule_loop_term(old(self).toks(), old(self)@) is Some,
        ensures
            final(self).same_tokens(old(self)),
            final(self).toks() == old(self).toks(),
            rule_loop_term(old(self).toks(), old(self)@) == Some((term_outcome(r), final(self)@)),
        decreases old(self).toks().len() - old(self)@.index, 3nat,
    {
        let term = match self.atom() {
            Ok(t) => t,
            Err(e) => return Err(e),
        };
        self.loop_rest(term)
    }

    /// The `("^" Choice)*` part of a loop term: each branch wraps the term read so far.
    fn loop_rest(&mut self, term: Term) -> (r: Result<Term, ParserError>)
        requires
            rule_loop_rest(old(self).toks(), old(self)@, term@) is Some,
        ensures
            final(self).same_tokens(old(self)),
            final(self).toks() == old(self).toks(),
            rule_loop_rest(old(self).toks(), old(self)@, term@) == Some(
                (term_outcome(r), final(self)@),
            ),
        decreases old(self).toks().len() - old(self)@.index, 2nat,
    {
        if self.current_is(TokenType::Caret) {
            self.advance();
            let branch = match self.choice() {
                Ok(c) => c,
                Err(e) => return Err(e),
            };
            self.loop_rest(Term::Loop { term: Box::new(term), branch })
        } else {
            Ok(term)
        }
    }

    /// atom = "(" sequence ")" | Variable | "[" sequence "]" [Location] "." loop_term
    ///      | [Location] "<" Variable ">" "." loop_term | Choice | Special
    fn atom(&mut self) -> (r: Result<Term, ParserError>)
        requires
            rule_atom(old(self).toks(), old(self)@) is Some,
        ensures
            final(self).same_tokens(old(self)),
            final(self).toks() == old(self).toks(),
            rule_atom(old(self).toks(), old(self)@) == Some((term_outcome(r), final(self)@)),
        decreases old(self).toks().len() - old(self)@.index, 2nat,
    {
        if let Some(special) = Self::atom_special(&self.tokens[self.current_index].token_type) {
            self.advance();
            return Ok(Term::Special(special));
        }
        if self.current_is(TokenType::LParen) {
            self.advance();
            let term = match self.sequence() {
                Ok(t) => t,
                Err(e) => return Err(e),
            };
            match self.consume(TokenType::RParen, "expected `)` after sequence") {
                Ok(_) => {},
                Err(e) => return Err(e),
            }
            Ok(term)
        } else if self.current_is(TokenType::LBracket) {
            self.advance();
            let argument = match self.sequence() {
                Ok(t) => t,
                Err(e) => return Err(e),
            };
            match self.consume(TokenType::RBracket, "expected `]` after application argument") {
                Ok(_) => {},
                Err(e) => return Err(e),
            }
            let location = if self.current_is(TokenType::Dot) {
                Location::Main
            } else {
                match self.location() {
                    Ok(l) => l,
                    Err(e) => return Err(e),
                }
            };
            match self.consume(TokenType::Dot, "expected `.` after application location") {
                Ok(_) => {},
                Err(e) => return Err(e),
            }
            let function = match self.loop_term() {
                Ok(t) => t,
                Err(e) => return Err(e),
            };
            Ok(Term::Application { function: Box::new(function), argument: Box::new(argument), location })
        } else if self.current_is(TokenType::LAngleBracket) {
            let binder = match &self.token_at(1).token_type {
                TokenType::Identifier(_) => self.token_at(2).token_type.same(&TokenType::RAngleBracket),
                _ => false,
            };
            if binder {
                self.abstraction()
            } else {
                self.advance();
                Ok(Term::Special(Special::LessThan))
            }
        } else {
            let name = match &self.tokens[self.current_index].token_type {
                TokenType::Identifier(ident) => Some(ident.clone()),
                _ => None,
            };
            match name {
                Some(name) => {
                    if self.token_at(1).token_type.same(&TokenType::LAngleBracket) {
                        self.abstraction()
                    } else {
                        self.advance();
                        Ok(Term::Variable { name })
                    }
                },
                None => {
                    if self.tokens[self.current_index].token_type.is_choice() {
                        match self.choice() {
                            Ok(c) => Ok(Term::Choice(c)),
                            Err(e) => Err(e),
                        }
                    } else {
                        Err(self.error_here(owned("expected FMC atom")))
                    }
                },
            }
        }
    }

    /// [Location] "<" Variable ">" "." loop_term
    fn abstraction(&mut self) -> (r: Result<Term, ParserError>)
        requires
            rule_abstraction(old(self).toks(), old(self)@) is Some,
        ensures
            final(self).same_tokens(old(self)),
            final(self).toks() == old(self).toks(),
            rule_abstraction(old(self).toks(), old(self)@) == Some((term_outcome(r), final(self)@)),
        decreases old(self).toks().len() - old(self)@.index, 1nat,
    {
        let location = if self.current_is(TokenType::LAngleBracket) {
            Location::Main
        } else {
            match self.location() {
                Ok(l) => l,
                Err(e) => return Err(e),
            }
        };
        match self.consume(TokenType::LAngleBracket, "expected `<` to begin abstraction") {
            Ok(_) => {},
            Err(e) => return Err(e),
        }
        let variable = match &self.tokens[self.current_index].token_type {
            TokenType::Identifier(variable) => variable.clone(),
            _ => return Err(self.error_here(owned("expected abstraction binder name"))),
        };
        self.advance();
        match self.consume(TokenType::RAngleBracket, "expected `>` after abstraction binder") {
            Ok(_) => {},
            Err(e) => return Err(e),
        }
        match self.consume(TokenType::Dot, "expected `.` after abstraction binder") {
            Ok(_) => {},
            Err(e) => return Err(e),
        }
        let term = match self.loop_term() {
            Ok(t) => t,
            Err(e) => return Err(e),
        };
        Ok(Term::Abstraction { binds: variable, term: Box::new(term), location })
    }

    /// embeddedFmc = "\" sequence "\"
    fn embedded_fmc(&mut self) -> (r: Result<Term, ParserError>)
        requires
            rule_embedded_fmc(old(self).toks(), old(self)@) is Some,
        ensures
            final(self).same_tokens(old(self)),
            final(self).toks() == old(self).toks(),
            rule_embedded_fmc(old(self).toks(), old(self)@) == Some(
                (term_outcome(r), final(self)@),
            ),
    {
        match self.consume(TokenType::Backslash, "expected `\\` to begin embedded FMC term") {
            Ok(_) => {},
            Err(e) => return Err(e),
        }
        let term = match self.sequence() {
            Ok(t) => t,
            Err(e) => return Err(e),
        };
        match self.consume(TokenType::Backslash, "expected closing `\\` after embedded FMC term") {
            Ok(_) => {},
            Err(e) => return Err(e),
        }
        Ok(term)
    }
    /// The operator of binary level `k` that a token stands for.
    fn binary_op(k: u8, tt: &TokenType) -> (r: Option<Special>)
        ensures
            r == spec_binary_op(k as nat, tt@),
    {
        if k == 0 {
            match tt {
                TokenType::Or => Some(Special::LogicOr),
                _ => None,
            }
        } else if k == 1 {
            match tt {
                TokenType::And => Some(Special::LogicAnd),
                _ => None,
            }
        } else if k == 2 {
            match tt {
                TokenType::NotEqual => Some(Special::NotEqual),
                TokenType::Equal => Some(Special::Equal),
                _ => None,
            }
        } else if k == 3 {
            match tt {
                TokenType::LAngleBracket => Some(Special::LessThan),
                TokenType::RAngleBracket => Some(Special::GreaterThan),
                TokenType::GreaterThanEqual => Some(Special::GreaterThanEqual),
                TokenType::LessThanEqual => Some(Special::LessThanEqual),
                _ => None,
            }
        } else if k == 4 {
            match tt {
                TokenType::Minus => Some(Special::Subraction),
                TokenType::Plus => Some(Special::Addition),
                _ => None,
            }
        } else {
            match tt {
                TokenType::Divide => Some(Special::Division),
                TokenType::Star => Some(Special::Multiplication),
                TokenType::Modulo => Some(Special::Modulo),
                _ => None,
            }
        }
    }

    /// The operand of binary level `k`: the next level, or a unary expression below `*`.
    fn operand(&mut self, k: u8) -> (r: Result<Term, ParserError>)
        requires
            rule_operand(old(self).toks(), old(self)@, k as nat) is Some,
        ensures
            final(self).same_tokens(old(self)),
            final(self).toks() == old(self).toks(),
            rule_operand(old(self).toks(), old(self)@, k as nat) == Some(
                (term_outcome(r), final(self)@),
            ),
        decreases old(self).toks().len() - old(self)@.index, (spec_binary_rank(k as nat) - 1) as nat,
    {
        if k < 5 {
            self.binary(k + 1)
        } else {
            self.unary()
        }
    }

    /// Binary level `k`: logic_or = logic_and ("||" logic_and)*, logic_and = equality ("&&"
    /// equality)*, equality = comparison (("!=" | "==") comparison)*, comparison = sum
    /// ((">" | ">=" | "<" | "<=") sum)*, sum = factor (("-" | "+") factor)*,
    /// factor = unary (("/" | "*" | "%") unary)*.
    fn binary(&mut self, k: u8) -> (r: Result<Term, ParserError>)
        requires
            rule_binary(old(self).toks(), old(self)@, k as nat) is Some,
        ensures
            final(self).same_tokens(old(self)),
            final(self).toks() == old(self).toks(),
            rule_binary(old(self).toks(), old(self)@, k as nat) == Some(
                (term_outcome(r), final(self)@),
            ),
        decreases old(self).toks().len() - old(self)@.index, spec_binary_rank(k as nat),
    {
        let term = match self.operand(k) {
            Ok(t) => t,
            Err(e) => return Err(e),
        };
        self.binary_rest(k, term)
    }

    /// The repeated `op operand` part of binary level `k` after the term read so far.
    fn binary_rest(&mut self, k: u8, term: Term) -> (r: Result<Term, ParserError>)
        requires
            rule_binary_rest(old(self).toks(), old(self)@, k as nat, term@) is Some,
        ensures
            final(self).same_tokens(old(self)),
            final(self).toks() == old(self).toks(),
            rule_binary_rest(old(self).toks(), old(self)@, k as nat, term@) == Some(
                (term_outcome(r), final(self)@),
            ),
        decreases old(self).toks().len() - old(self)@.index, (spec_binary_rank(k as nat) - 1) as nat,
    {
        match Self::binary_op(k, &self.tokens[self.current_index].token_type) {
            Some(op) => {
                self.advance();
                let next = match self.operand(k) {
                    Ok(t) => t,
                    Err(e) => return Err(e),
                };
                let combined = Term::Case {
                    term: Box::new(term),
                    exit: Choice::skip(),
                    then: Box::new(
                        Term::Case {
                            term: Box::new(next),
                            exit: Choice::skip(),
                            then: Box::new(Term::Special(op)),
                        },
                    ),
                };
                proof {
                    reveal_with_fuel(term_view, 3);
                    assert(combined@ == spec_binary_term(term@, next@, op));
                }
                self.binary_rest(k, combined)
            },
            None => Ok(term),
        }
    }

    /// A unary operator applied to its operand.
    fn unary_term(tt: &TokenType, term: Term) -> (r: Term)
        ensures
            r@ == spec_unary_term(tt@, term@),
    {
        proof {
            reveal_with_fuel(term_view, 3);
        }
        match tt {
            TokenType::Minus => Term::Case {
                term: Box::new(Term::Choice(Choice::Constant(Constant::Integer(0))).as_expression()),
                exit: Choice::skip(),
                then: Box::new(
                    Term::Case {
                        term: Box::new(term),
                        exit: Choice::skip(),
                        then: Box::new(Term::Special(Special::Subraction)),
                    },
                ),
            },
            TokenType::Int => Term::Case {
                term: Box::new(term),
                exit: Choice::skip(),
                then: Box::new(Term::Special(Special::IntCast)),
            },
            _ => Term::Case {
                term: Box::new(term),
                exit: Choice::skip(),
                then: Box::new(Term::Special(Special::LogicNot)),
            },
        }
    }

    /// unary = ( "!" | "-" | "int" ) unary | call
    fn unary(&mut self) -> (r: Result<Term, ParserError>)
        requires
            rule_unary(old(self).toks(), old(self)@) is Some,
        ensures
            final(self).same_tokens(old(self)),
            final(self).toks() == old(self).toks(),
            rule_unary(old(self).toks(), old(self)@) == Some((term_outcome(r), final(self)@)),
        decreases old(self).toks().len() - old(self)@.index, 12nat,
    {
        let tt = self.tokens[self.current_index].token_type.clone();
        let is_unary = match &tt {
            TokenType::Not | TokenType::Minus | TokenType::Int => true,
            _ => false,
        };
        assert(is_unary == spec_is_unary(tt@));
        if is_unary {
            self.advance();
            let term = match self.unary() {
                Ok(t) => t,
                Err(e) => return Err(e),
            };
            Ok(Self::unary_term(&tt, term))
        } else {
            self.call()
        }
    }

    /// The position of the first declared function with the given name.
    fn find_function(&self, name: &str) -> (r: Option<usize>)
        ensures
            match r {
                Some(i) => i < self.functions.len() && spec_find_function(self@.functions, name@)
                    == Some(i as int),
                None => spec_find_function(self@.functions, name@) is None,
            },
    {
        let ghost fs = self@.functions;
        let mut i: usize = 0;
        while i < self.functions.len()
            invariant
                i <= self.functions.len(),
                fs == self@.functions,
                fs.len() == self.functions.len(),
                forall|j: int| 0 <= j < i ==> fs[j].name != name@,
            decreases self.functions.len() - i,
        {
            if text_eq(self.functions[i].name.as_str(), name) {
                proof {
                    assert(fs[i as int].name == name@);
                    assert(0 <= i < fs.len() && fs[i as int].name == name@ && forall|j: int|
                        0 <= j < i ==> fs[j].name != name@);
                    let c = choose|c: int|
                        0 <= c < fs.len() && fs[c].name == name@ && forall|j: int|
                            0 <= j < c ==> fs[j].name != name@;
                    if c < i {
                        assert(fs[c].name != name@);
                    }
                    if c > i {
                        assert(fs[i as int].name != name@);
                    }
                }
                return Some(i);
            }
            i = i + 1;
        }
        None
    }

    /// The arguments of a call sequenced before the function, the last argument innermost.
    fn apply_arguments(&mut self, term: Term, args: Vec<Term>) -> (r: Term)
        ensures
            spec_apply_arguments(term@, terms_view(args@), old(self)@.next_var) == (
                r@,
                final(self)@.next_var,
            ),
            final(self)@.index == old(self)@.index,
            final(self)@.functions == old(self)@.functions,
            final(self).same_tokens(old(self)),
            final(self).toks() == old(self).toks(),
    {
        let ghost goal = spec_apply_arguments(term@, terms_view(args@), self.names.next_var);
        let ghost index = self.current_index;
        let ghost functions = self.functions@;
        let ghost tokens = self.tokens@;
        let mut term = term;
        let mut args = args;
        while args.len() > 0
            invariant
                spec_apply_arguments(term@, terms_view(args@), self.names.next_var) == goal,
                self.current_index == index,
                self.functions@ == functions,
                self.tokens@ == tokens,
            decreases args.len(),
        {
            let ghost before = args@;
            let arg = args.pop().unwrap();
            proof {
                assert(terms_view(args@) =~= terms_view(before).drop_last());
                assert(arg@ == terms_view(before).last());
            }
            let ghost previous = term@;
            term = Term::Operation(
                Operation::Sequence { first: Box::new(arg), second: Box::new(term) },
            );
            proof {
                reveal_with_fuel(term_view, 2);
                reveal_with_fuel(op_view, 2);
            }
            term = term.expand_operations(&mut self.names);
        }
        term
    }
    /// call = primary | IDENT "(" arguments? ")"
    #[verifier::rlimit(30)]
    fn call(&mut self) -> (r: Result<Term, ParserError>)
        requires
            rule_call(old(self).toks(), old(self)@) is Some,
        ensures
            final(self).same_tokens(old(self)),
            final(self).toks() == old(self).toks(),
            rule_call(old(self).toks(), old(self)@) == Some((term_outcome(r), final(self)@)),
        decreases old(self).toks().len() - old(self)@.index, 11nat,
    {
        let fn_name = match &self.tokens[self.current_index].token_type {
            TokenType::Identifier(name) => name.clone(),
            _ => return self.primary(),
        };
        self.advance();
        match self.consume(TokenType::LParen, "expected `(` after function name in call") {
            Ok(_) => {},
            Err(e) => return Err(e),
        }
        match self.find_function(fn_name.as_str()) {
            Some(i) => self.call_known(fn_name, i),
            None => {
                let mut message = owned("unknown function `");
                push_text(&mut message, fn_name.as_str());
                push_text(&mut message, "`");
                Err(self.error_here(message))
            },
        }
    }

    /// The arguments and closing parenthesis of a call of the declared function at `i`,
    /// after its opening parenthesis.
    fn call_known(&mut self, fn_name: String, i: usize) -> (r: Result<Term, ParserError>)
        requires
            i < old(self).functions.len(),
            rule_call_known(old(self).toks(), old(self)@, fn_name@, i as int) is Some,
        ensures
            final(self).same_tokens(old(self)),
            final(self).toks() == old(self).toks(),
            rule_call_known(old(self).toks(), old(self)@, fn_name@, i as int) == Some(
                (term_outcome(r), final(self)@),
            ),
        decreases old(self).toks().len() - old(self)@.index, 34nat,
    {
        if self.functions[i].term.is_none() {
            let ghost before = self.functions@;
            let mut function = self.functions.remove(i);
            function.recurses = true;
            self.functions.insert(i, function);
            proof {
                assert(functions_view(self.functions@) =~= spec_mark_recursive(
                    functions_view(before),
                    i as int,
                ));
            }
        }
        let parameter_count = self.functions[i].parameters.len();
        let args = if !self.current_is(TokenType::RParen) {
            match self.arguments() {
                Ok(args) => args,
                Err(e) => return Err(e),
            }
        } else {
            Vec::new()
        };
        match self.consume(TokenType::RParen, "expected `)` after function arguments") {
            Ok(_) => {},
            Err(e) => return Err(e),
        }
        if args.len() != parameter_count {
            let mut message = owned("expected ");
            push_text(&mut message, usize_text(parameter_count).as_str());
            push_text(&mut message, " argument(s) for function `");
            push_text(&mut message, fn_name.as_str());
            push_text(&mut message, "`, found ");
            push_text(&mut message, usize_text(args.len()).as_str());
            return Err(self.error_here(message));
        }
        let function = Term::Variable { name: concat(fn_name.as_str(), "_f") };
        Ok(self.apply_arguments(function, args))
    }

    /// arguments = expression ( "," expression )*
    fn arguments(&mut self) -> (r: Result<Vec<Term>, ParserError>)
        requires
            rule_arguments(old(self).toks(), old(self)@) is Some,
        ensures
            final(self).same_tokens(old(self)),
            final(self).toks() == old(self).toks(),
            rule_arguments(old(self).toks(), old(self)@) == Some((terms_outcome(r), final(self)@)),
        decreases old(self).toks().len() - old(self)@.index, 33nat,
    {
        let first = match self.expression() {
            Ok(t) => t,
            Err(e) => return Err(e),
        };
        let mut args = Vec::new();
        args.push(first);
        proof {
            assert(terms_view(args@) =~= seq![args@[0]@]);
        }
        self.arguments_rest(args)
    }

    /// The `( "," expression )*` part of an argument list.
    fn arguments_rest(&mut self, args: Vec<Term>) -> (r: Result<Vec<Term>, ParserError>)
        requires
            rule_arguments_rest(old(self).toks(), old(self)@, terms_view(args@)) is Some,
        ensures
            final(self).same_tokens(old(self)),
            final(self).toks() == old(self).toks(),
            rule_arguments_rest(old(self).toks(), old(self)@, terms_view(args@)) == Some(
                (terms_outcome(r), final(self)@),
            ),
        decreases old(self).toks().len() - old(self)@.index, 1nat,
    {
        if self.current_is(TokenType::Comma) {
            self.advance();
            let next = match self.expression() {
                Ok(t) => t,
                Err(e) => return Err(e),
            };
            let mut args = args;
            let ghost before = args@;
            args.push(next);
            proof {
                assert(terms_view(args@) =~= terms_view(before).push(next@));
            }
            self.arguments_rest(args)
        } else {
            Ok(args)
        }
    }

    /// primary = "true" | "false" | "input" | NUMBER | "$" IDENT | "(" expression ")"
    ///         | embeddedFmc
    fn primary(&mut self) -> (r: Result<Term, ParserError>)
        requires
            rule_primary(old(self).toks(), old(self)@) is Some,
        ensures
            final(self).same_tokens(old(self)),
            final(self).toks() == old(self).toks(),
            rule_primary(old(self).toks(), old(self)@) == Some((term_outcome(r), final(self)@)),
        decreases old(self).toks().len() - old(self)@.index, 10nat,
    {
        proof {
            reveal_with_fuel(term_view, 2);
            reveal_with_fuel(op_view, 2);
        }
        let term = match &self.tokens[self.current_index].token_type {
            TokenType::True => Term::Choice(Choice::Constant(Constant::Boolean(true))).as_expression(),
            TokenType::False => Term::Choice(Choice::Constant(Constant::Boolean(false))).as_expression(),
            TokenType::Input => Term::Operation(Operation::Read),
            TokenType::Integer(num) => Term::Choice(Choice::Constant(Constant::Integer(*num))).as_expression(),
            TokenType::Dollar => {
                self.advance();
                let cell = match &self.tokens[self.current_index].token_type {
                    TokenType::Identifier(ident) => ident.clone(),
                    _ => return Err(self.error_here(owned("expected identifier after `$`"))),
                };
                Term::Operation(Operation::Lookup { cell })
            },
            TokenType::LParen => {
                self.advance();
                let expr = match self.expression() {
                    Ok(t) => t,
                    Err(e) => return Err(e),
                };
                if !self.current_is(TokenType::RParen) {
                    return Err(self.error_here(owned("expected `)` after expression")));
                }
                expr
            },
            TokenType::Backslash => return self.embedded_fmc(),
            _ => return Err(self.error_here(owned("expected expression"))),
        };
        self.advance();
        Ok(term)
    }

    /// expression = assignment
    fn expression(&mut self) -> (r: Result<Term, ParserError>)
        requires
            rule_expression(old(self).toks(), old(self)@) is Some,
        ensures
            final(self).same_tokens(old(self)),
            final(self).toks() == old(self).toks(),
            rule_expression(old(self).toks(), old(self)@) == Some((term_outcome(r), final(self)@)),
        decreases old(self).toks().len() - old(self)@.index, 32nat,
    {
        self.assignment()
    }

    /// assignment = IDENT ":=" assignment | logic_or
    fn assignment(&mut self) -> (r: Result<Term, ParserError>)
        requires
            rule_assignment(old(self).toks(), old(self)@) is Some,
        ensures
            final(self).same_tokens(old(self)),
            final(self).toks() == old(self).toks(),
            rule_assignment(old(self).toks(), old(self)@) == Some((term_outcome(r), final(self)@)),
        decreases old(self).toks().len() - old(self)@.index, 31nat,
    {
        proof {
            reveal_with_fuel(term_view, 2);
            reveal_with_fuel(op_view, 2);
        }
        if self.token_at(1).token_type.same(&TokenType::Assignment) {
            let ident = match &self.tokens[self.current_index].token_type {
                TokenType::Identifier(ident) => ident.clone(),
                _ => return Err(
                    self.error_here(owned("expected identifier on left side of assignment")),
                ),
            };
            self.advance();
            if self.current_is(TokenType::Assignment) {
                self.advance();
                let expr = match self.assignment() {
                    Ok(t) => t,
                    Err(e) => return Err(e),
                };
                Ok(
                    Term::Operation(
                        Operation::Update { location: Location::Cell(ident), argument: Box::new(expr) },
                    ),
                )
            } else {
                Err(self.error_here(owned("expected `:=` in assignment")))
            }
        } else {
            self.binary(0)
        }
    }
    /// Statements run one after the other: each continues, on the skip choice, with the rest.
    fn fold_statements(statements: Vec<Term>) -> (r: Term)
        requires
            statements.len() >= 1,
        ensures
            r@ == spec_fold_statements(terms_view(statements@)),
    {
        let ghost all = terms_view(statements@);
        let ghost total = statements.len() as int;
        let mut statements = statements;
        let mut term = statements.pop().unwrap();
        proof {
            assert(all.subrange(total - 1, total) =~= seq![term@]);
        }
        while statements.len() > 0
            invariant
                statements.len() < total,
                total == all.len(),
                forall|j: int| 0 <= j < statements.len() ==> #[trigger] statements@[j]@ == all[j],
                term@ == spec_fold_statements(all.subrange(statements.len() as int, total)),
            decreases statements.len(),
        {
            let ghost i = statements.len() as int;
            let last = statements.pop().unwrap();
            proof {
                assert(last@ == all[i - 1]);
                assert(all.subrange(i - 1, total).drop_first() =~= all.subrange(i, total));
                reveal_with_fuel(term_view, 2);
            }
            term = Term::Case { term: Box::new(last), exit: Choice::skip(), then: Box::new(term) };
        }
        proof {
            assert(all.subrange(0, total) =~= all);
        }
        term
    }

    /// statement = exprStmt | whileDoStmt | doWhileStmt | printStmt | ifStmt | block
    ///           | breakStmt | returnStmt
    fn statement(&mut self) -> (r: Result<Term, ParserError>)
        requires
            rule_statement(old(self).toks(), old(self)@) is Some,
        ensures
            final(self).same_tokens(old(self)),
            final(self).toks() == old(self).toks(),
            rule_statement(old(self).toks(), old(self)@) == Some((term_outcome(r), final(self)@)),
        decreases old(self).toks().len() - old(self)@.index, 30nat,
    {
        match &self.tokens[self.current_index].token_type {
            TokenType::While => self.while_do(),
            TokenType::Do => self.do_while(),
            TokenType::Print => self.print_stmt(),
            TokenType::LBrace => self.block(),
            TokenType::If => self.if_stmt(),
            TokenType::Break => self.break_stmt(),
            TokenType::Return => self.return_stmt(),
            _ => self.expr_stmt(),
        }
    }

    /// returnStmt = "return" expression? ";"
    fn return_stmt(&mut self) -> (r: Result<Term, ParserError>)
        requires
            rule_return(old(self).toks(), old(self)@) is Some,
        ensures
            final(self).same_tokens(old(self)),
            final(self).toks() == old(self).toks(),
            rule_return(old(self).toks(), old(self)@) == Some((term_outcome(r), final(self)@)),
    {
        proof {
            reveal_with_fuel(term_view, 2);
        }
        match self.consume(TokenType::Return, "expected `return`") {
            Ok(_) => {},
            Err(e) => return Err(e),
        }
        if !self.current_is(TokenType::SemiColon) {
            let expr = match self.expression() {
                Ok(t) => t,
                Err(e) => return Err(e),
            };
            match self.consume(TokenType::SemiColon, "expected `;` after return expression") {
                Ok(_) => {},
                Err(e) => return Err(e),
            }
            Ok(
                Term::Application {
                    function: Box::new(Term::Choice(Choice::Exception(Exception::Return))),
                    argument: Box::new(expr),
                    location: Location::Main,
                },
            )
        } else {
            match self.consume(TokenType::SemiColon, "expected `;` after `return`") {
                Ok(_) => {},
                Err(e) => return Err(e),
            }
            Ok(
                Term::Application {
                    function: Box::new(Term::Choice(Choice::Exception(Exception::Return))),
                    argument: Box::new(Term::Choice(Choice::skip())),
                    location: Location::Main,
                },
            )
        }
    }

    /// breakStmt = "break" ";"
    fn break_stmt(&mut self) -> (r: Result<Term, ParserError>)
        requires
            rule_break(old(self).toks(), old(self)@) is Some,
        ensures
            final(self).same_tokens(old(self)),
            final(self).toks() == old(self).toks(),
            rule_break(old(self).toks(), old(self)@) == Some((term_outcome(r), final(self)@)),
    {
        match self.consume(TokenType::Break, "expected `break`") {
            Ok(_) => {},
            Err(e) => return Err(e),
        }
        match self.consume(TokenType::SemiColon, "expected `;` after `break`") {
            Ok(_) => {},
            Err(e) => return Err(e),
        }
        Ok(Term::Choice(Choice::Exception(Exception::Break)))
    }

    /// `"(" expression ")"` after a keyword, with the messages of the statement it stands in.
    fn condition(&mut self, open_message: &str, close_message: &str) -> (r: Result<
        Term,
        ParserError,
    >)
        requires
            rule_condition(old(self).toks(), old(self)@, open_message@, close_message@) is Some,
        ensures
            final(self).same_tokens(old(self)),
            final(self).toks() == old(self).toks(),
            rule_condition(old(self).toks(), old(self)@, open_message@, close_message@) == Some(
                (term_outcome(r), final(self)@),
            ),
    {
        match self.consume(TokenType::LParen, open_message) {
            Ok(_) => {},
            Err(e) => return Err(e),
        }
        let condition = match self.expression() {
            Ok(t) => t,
            Err(e) => return Err(e),
        };
        match self.consume(TokenType::RParen, close_message) {
            Ok(_) => {},
            Err(e) => return Err(e),
        }
        Ok(condition)
    }

    /// doWhileStmt = "do" statement "while" "(" expression ")"
    fn do_while(&mut self) -> (r: Result<Term, ParserError>)
        requires
            rule_do_while(old(self).toks(), old(self)@) is Some,
        ensures
            final(self).same_tokens(old(self)),
            final(self).toks() == old(self).toks(),
            rule_do_while(old(self).toks(), old(self)@) == Some((term_outcome(r), final(self)@)),
        decreases old(self).toks().len() - old(self)@.index, 29nat,
    {
        proof {
            reveal_with_fuel(term_view, 2);
            reveal_with_fuel(op_view, 2);
        }
        match self.consume(TokenType::Do, "expected `do`") {
            Ok(_) => {},
            Err(e) => return Err(e),
        }
        let inside = match self.statement() {
            Ok(t) => t,
            Err(e) => return Err(e),
        };
        match self.consume(TokenType::While, "expected `while` after `do` body") {
            Ok(_) => {},
            Err(e) => return Err(e),
        }
        let condition = match self.condition(
            "expected `(` after `while`",
            "expected `)` after do-while condition",
        ) {
            Ok(t) => t,
            Err(e) => return Err(e),
        };
        Ok(Term::Operation(Operation::DoWhile { term: Box::new(inside), condition: Box::new(condition) }))
    }

    /// ifStmt = "if" "(" expression ")" statement ("else" statement)?
    fn if_stmt(&mut self) -> (r: Result<Term, ParserError>)
        requires
            rule_if(old(self).toks(), old(self)@) is Some,
        ensures
            final(self).same_tokens(old(self)),
            final(self).toks() == old(self).toks(),
            rule_if(old(self).toks(), old(self)@) == Some((term_outcome(r), final(self)@)),
        decreases old(self).toks().len() - old(self)@.index, 29nat,
    {
        proof {
            reveal_with_fuel(term_view, 2);
            reveal_with_fuel(op_view, 2);
        }
        match self.consume(TokenType::If, "expected `if`") {
            Ok(_) => {},
            Err(e) => return Err(e),
        }
        let condition = match self.condition(
            "expected `(` after `if`",
            "expected `)` after if condition",
        ) {
            Ok(t) => t,
            Err(e) => return Err(e),
        };
        let then = match self.statement() {
            Ok(t) => t,
            Err(e) => return Err(e),
        };
        let else_ = if self.current_is(TokenType::Else) {
            self.advance();
            match self.statement() {
                Ok(t) => t,
                Err(e) => return Err(e),
            }
        } else {
            Term::Choice(Choice::skip())
        };
        let term = Term::Operation(
            Operation::IfThenElse {
                condition: Box::new(condition),
                then: Box::new(then),
                else_: Box::new(else_),
            },
        );
        Ok(term.expand_operations(&mut self.names))
    }

    /// printStmt = "print" expression ";"
    fn print_stmt(&mut self) -> (r: Result<Term, ParserError>)
        requires
            rule_print(old(self).toks(), old(self)@) is Some,
        ensures
            final(self).same_tokens(old(self)),
            final(self).toks() == old(self).toks(),
            rule_print(old(self).toks(), old(self)@) == Some((term_outcome(r), final(self)@)),
    {
        proof {
            reveal_with_fuel(op_view, 2);
        }
        match self.consume(TokenType::Print, "expected `print`") {
            Ok(_) => {},
            Err(e) => return Err(e),
        }
        let expression = match self.expression() {
            Ok(t) => t,
            Err(e) => return Err(e),
        };
        let term = Operation::Write { argument: Box::new(expression) }.expand(&mut self.names);
        match self.consume(TokenType::SemiColon, "expected `;` after print statement") {
            Ok(_) => {},
            Err(e) => return Err(e),
        }
        Ok(term)
    }

    /// whileDoStmt = "while" "(" expression ")" statement
    fn while_do(&mut self) -> (r: Result<Term, ParserError>)
        requires
            rule_while_do(old(self).toks(), old(self)@) is Some,
        ensures
            final(self).same_tokens(old(self)),
            final(self).toks() == old(self).toks(),
            rule_while_do(old(self).toks(), old(self)@) == Some((term_outcome(r), final(self)@)),
        decreases old(self).toks().len() - old(self)@.index, 29nat,
    {
        proof {
            reveal_with_fuel(term_view, 2);
            reveal_with_fuel(op_view, 2);
        }
        match self.consume(TokenType::While, "expected `while`") {
            Ok(_) => {},
            Err(e) => return Err(e),
        }
        let condition = match self.condition(
            "expected `(` after `while`",
            "expected `)` after while condition",
        ) {
            Ok(t) => t,
            Err(e) => return Err(e),
        };
        let inside = match self.statement() {
            Ok(t) => t,
            Err(e) => return Err(e),
        };
        Ok(Term::Operation(Operation::WhileDo { condition: Box::new(condition), term: Box::new(inside) }))
    }

    /// block = "{" (statement)* "}"
    fn block(&mut self) -> (r: Result<Term, ParserError>)
        requires
            rule_block(old(self).toks(), old(self)@) is Some,
        ensures
            final(self).same_tokens(old(self)),
            final(self).toks() == old(self).toks(),
            rule_block(old(self).toks(), old(self)@) == Some((term_outcome(r), final(self)@)),
        decreases old(self).toks().len() - old(self)@.index, 29nat,
    {
        match self.consume(TokenType::LBrace, "expected `{` to begin block") {
            Ok(_) => {},
            Err(e) => return Err(e),
        }
        let block: Vec<Term> = Vec::new();
        proof {
            assert(terms_view(block@) =~= Seq::<SpecTerm>::empty());
        }
        self.block_rest(block)
    }

    /// The statements of a block up to its closing brace, after those read so far.
    fn block_rest(&mut self, block: Vec<Term>) -> (r: Result<Term, ParserError>)
        requires
            rule_block_rest(old(self).toks(), old(self)@, terms_view(block@)) is Some,
        ensures
            final(self).same_tokens(old(self)),
            final(self).toks() == old(self).toks(),
            rule_block_rest(old(self).toks(), old(self)@, terms_view(block@)) == Some(
                (term_outcome(r), final(self)@),
            ),
        decreases old(self).toks().len() - old(self)@.index, 31nat,
    {
        if self.current_is(TokenType::RBrace) {
            self.advance();
            if block.len() == 0 {
                Ok(Term::Choice(Choice::skip()))
            } else {
                Ok(Self::fold_statements(block))
            }
        } else if self.current_is(TokenType::EOF) {
            Err(self.error_here(owned("expected `}` to close block")))
        } else {
            let statement = match self.statement() {
                Ok(t) => t,
                Err(e) => return Err(e),
            };
            let mut block = block;
            let ghost before = block@;
            block.push(statement);
            proof {
                assert(terms_view(block@) =~= terms_view(before).push(statement@));
            }
            self.block_rest(block)
        }
    }

    /// exprStmt = expression ";"
    fn expr_stmt(&mut self) -> (r: Result<Term, ParserError>)
        requires
            rule_expr_stmt(old(self).toks(), old(self)@) is Some,
        ensures
            final(self).same_tokens(old(self)),
            final(self).toks() == old(self).toks(),
            rule_expr_stmt(old(self).toks(), old(self)@) == Some((term_outcome(r), final(self)@)),
    {
        let expr = match self.expression() {
            Ok(t) => t,
            Err(e) => return Err(e),
        };
        match self.consume(TokenType::SemiColon, "expected `;` after expression") {
            Ok(_) => {},
            Err(e) => return Err(e),
        }
        Ok(expr)
    }
    /// The names after the first parameter of a parameter list.
    fn parameters_rest(&mut self, params: Vec<String>) -> (r: Result<Vec<String>, ParserError>)
        requires
            rule_parameters_rest(old(self).toks(), old(self)@, params.deep_view()) is Some,
        ensures
            final(self).same_tokens(old(self)),
            final(self).toks() == old(self).toks(),
            rule_parameters_rest(old(self).toks(), old(self)@, params.deep_view()) == Some(
                (names_outcome(r), final(self)@),
            ),
        decreases old(self).toks().len() - old(self)@.index,
    {
        if self.current_is(TokenType::Comma) {
            self.advance();
            let next = match &self.tokens[self.current_index].token_type {
                TokenType::Identifier(next) => next.clone(),
                _ => return Err(self.error_here(owned("expected parameter name after `,`"))),
            };
            self.advance();
            let mut params = params;
            let ghost before = params.deep_view();
            params.push(next);
            proof {
                assert(params.deep_view() =~= before.push(next@));
            }
            self.parameters_rest(params)
        } else {
            Ok(params)
        }
    }

    /// parameters = IDENT ( "," IDENT )*
    fn parameters(&mut self) -> (r: Result<Vec<String>, ParserError>)
        requires
            rule_parameters(old(self).toks(), old(self)@) is Some,
        ensures
            final(self).same_tokens(old(self)),
            final(self).toks() == old(self).toks(),
            rule_parameters(old(self).toks(), old(self)@) == Some((names_outcome(r), final(self)@)),
    {
        let first = match &self.tokens[self.current_index].token_type {
            TokenType::Identifier(first) => first.clone(),
            _ => return Err(self.error_here(owned("expected parameter name"))),
        };
        self.advance();
        let mut params = Vec::new();
        params.push(first);
        proof {
            assert(params.deep_view() =~= seq![first@]);
        }
        self.parameters_rest(params)
    }

    /// Gives every declared function with the given name the body term.
    fn set_terms(&mut self, name: &str, term: Term)
        ensures
            final(self)@ == (SpecParser {
                index: old(self)@.index,
                functions: spec_set_terms(old(self)@.functions, name@, term@),
                next_var: old(self)@.next_var,
            }),
            final(self).same_tokens(old(self)),
            final(self).toks() == old(self).toks(),
    {
        let ghost start = functions_view(self.functions@);
        let ghost goal = spec_set_terms(start, name@, term@);
        let mut i: usize = 0;
        while i < self.functions.len()
            invariant
                i <= self.functions.len(),
                self.functions.len() == start.len(),
                self.tokens@ == old(self).tokens@,
                self.current_index == old(self).current_index,
                self.names == old(self).names,
                goal == spec_set_terms(start, name@, term@),
                forall|j: int| 0 <= j < i ==> functions_view(self.functions@)[j] == goal[j],
                forall|j: int| i <= j < start.len() ==> functions_view(self.functions@)[j] == start[j],
            decreases self.functions.len() - i,
        {
            if text_eq(self.functions[i].name.as_str(), name) {
                let ghost before = self.functions@;
                let mut function = self.functions.remove(i);
                function.term = Some(term.clone());
                self.functions.insert(i, function);
                proof {
                    assert(self.functions@ =~= before.update(i as int, function));
                    assert(functions_view(self.functions@)[i as int] == goal[i as int]);
                }
            } else {
                assert(functions_view(self.functions@)[i as int] == goal[i as int]);
            }
            assert(forall|j: int|
                0 <= j < i + 1 ==> functions_view(self.functions@)[j] == goal[j]);
            i = i + 1;
        }
        proof {
            assert(functions_view(self.functions@) =~= goal);
        }
    }

    /// function = IDENT "(" parameters? ")" block
    fn function(&mut self) -> (r: Result<(), ParserError>)
        requires
            rule_function(old(self).toks(), old(self)@) is Some,
        ensures
            final(self).same_tokens(old(self)),
            final(self).toks() == old(self).toks(),
            rule_function(old(self).toks(), old(self)@) == Some((unit_outcome(r), final(self)@)),
    {
        let name = match &self.tokens[self.current_index].token_type {
            TokenType::Identifier(name) => name.clone(),
            _ => return Err(self.error_here(owned("expected function name after `fn`"))),
        };
        self.advance();
        match self.consume(TokenType::LParen, "expected `(` after function name") {
            Ok(_) => {},
            Err(e) => return Err(e),
        }
        let parameters = if !self.current_is(TokenType::RParen) {
            match self.parameters() {
                Ok(p) => p,
                Err(e) => return Err(e),
            }
        } else {
            let empty: Vec<String> = Vec::new();
            proof {
                assert(empty.deep_view() =~= Seq::<Seq<char>>::empty());
            }
            empty
        };
        match self.consume(TokenType::RParen, "expected `)` after function parameters") {
            Ok(_) => {},
            Err(e) => return Err(e),
        }
        let ghost before = self.functions@;
        let declared = Function { name: name.clone(), parameters, term: None, recurses: false };
        self.functions.push(declared);
        proof {
            assert(functions_view(self.functions@) =~= functions_view(before).push(declared@));
        }
        let body = match self.block() {
            Ok(t) => t,
            Err(e) => return Err(e),
        };
        let expanded = body.expand_operations(&mut self.names);
        let local = expanded.switch_cell_to_local();
        let term = Term::Case {
            term: Box::new(local),
            exit: Choice::Exception(Exception::Return),
            then: Box::new(Term::id(&mut self.names)),
        };
        proof {
            reveal_with_fuel(term_view, 2);
        }
        self.set_terms(name.as_str(), term);
        Ok(())
    }

    /// funDecl = "fn" function
    fn fn_decl(&mut self) -> (r: Result<(), ParserError>)
        requires
            rule_fn_decl(old(self).toks(), old(self)@) is Some,
        ensures
            final(self).same_tokens(old(self)),
            final(self).toks() == old(self).toks(),
            rule_fn_decl(old(self).toks(), old(self)@) == Some((unit_outcome(r), final(self)@)),
    {
        match self.consume(TokenType::Fn, "expected `fn` to begin function declaration") {
            Ok(_) => {},
            Err(e) => return Err(e),
        }
        self.function()
    }

    /// The declarations of a program up to its end, after the statements read so far.
    fn program_rest(&mut self, statements: Vec<Term>) -> (r: Result<Vec<Term>, ParserError>)
        requires
            rule_program_rest(old(self).toks(), old(self)@, terms_view(statements@)) is Some,
        ensures
            final(self).same_tokens(old(self)),
            final(self).toks() == old(self).toks(),
            rule_program_rest(old(self).toks(), old(self)@, terms_view(statements@)) == Some(
                (terms_outcome(r), final(self)@),
            ),
        decreases old(self).toks().len() - old(self)@.index,
    {
        if self.current_is(TokenType::EOF) {
            Ok(statements)
        } else if self.current_is(TokenType::Fn) {
            match self.fn_decl() {
                Ok(_) => {},
                Err(e) => return Err(e),
            }
            self.program_rest(statements)
        } else {
            let statement = match self.statement() {
                Ok(t) => t,
                Err(e) => return Err(e),
            };
            let mut statements = statements;
            let ghost before = statements@;
            statements.push(statement);
            proof {
                assert(terms_view(statements@) =~= terms_view(before).push(statement@));
            }
            self.program_rest(statements)
        }
    }
    /// `para := [para].* ; body` on the local of the parameter.
    fn parameter_update(para: String, body: Term) -> (r: Term)
        ensures
            r@ == spec_parameter_update(para@, body@),
    {
        proof {
            reveal_with_fuel(term_view, 3);
            reveal_with_fuel(op_view, 2);
        }
        let variable = Term::Variable { name: owned(para.as_str()) };
        assert(variable@ == spec_variable(para@));
        let skip = Term::Choice(Choice::skip());
        assert(skip@ == SpecTerm::Choice(spec_skip()));
        let argument = Term::Application {
            function: Box::new(skip),
            argument: Box::new(variable),
            location: Location::Main,
        };
        assert(argument@ == SpecTerm::Application {
            function: Box::new(SpecTerm::Choice(spec_skip())),
            argument: Box::new(spec_variable(para@)),
            location: SpecLocation::Main,
        });
        let ghost argument_view = argument@;
        let location = Location::Local(para);
        assert(location@ == SpecLocation::Local(para@));
        let update = Term::Operation(
            Operation::Update { location, argument: Box::new(argument) },
        );
        assert(update@ == SpecTerm::Operation(SpecOperation::Update { location: SpecLocation::Local(para@), argument: Box::new(argument_view) }));
        let ghost update_view = update@;
        let r = Term::Operation(Operation::Sequence { first: Box::new(update), second: Box::new(body) });
        assert(r@ == SpecTerm::Operation(SpecOperation::Sequence { first: Box::new(update_view), second: Box::new(body@) }));
        r
    }

    /// The term the declared function at `i` is bound to: its body after the updates of the
    /// parameters' locals, abstracted over the parameters, and under a fixed point where the
    /// body calls the function.
    fn function_term(&mut self, i: usize) -> (r: Term)
        requires
            i < old(self).functions.len(),
            spec_function_term(old(self)@.functions[i as int], old(self)@.next_var) is Some,
        ensures
            spec_function_term(old(self)@.functions[i as int], old(self)@.next_var) == Some(
                (r@, final(self)@.next_var),
            ),
            final(self)@.index == old(self)@.index,
            final(self)@.functions == old(self)@.functions,
            final(self).functions@ == old(self).functions@,
            final(self).same_tokens(old(self)),
            final(self).toks() == old(self).toks(),
    {
        proof {
            reveal_with_fuel(term_view, 4);
            reveal_with_fuel(op_view, 3);
        }
        let ghost f = self@.functions[i as int];
        let ghost functions = self.functions@;
        let ghost tokens = self.tokens@;
        let ghost index = self.current_index;
        let body = match &self.functions[i].term {
            Some(t) => t.clone(),
            None => Term::Choice(Choice::skip()),
        };
        let ghost t0 = body@;
        let ghost n0 = self.names.next_var;
        let count = self.functions[i].parameters.len();
        let mut term = body;
        let mut j: usize = 0;
        while j < count
            invariant
                j <= count,
                i < self.functions.len(),
                count == f.parameters.len(),
                self.functions@ == functions,
                self.tokens@ == tokens,
                self.current_index == index,
                f == functions_view(functions)[i as int],
                (term@, self.names.next_var) == spec_parameter_updates(t0, f.parameters, j as nat, n0),
            decreases count - j,
        {
            let para = self.functions[i].parameters[j].clone();
            proof {
                assert(para@ == f.parameters[j as int]);
            }
            term = Self::parameter_update(para, term);
            term = term.expand_operations(&mut self.names);
            j = j + 1;
        }
        let ghost t1 = term@;
        let ghost n1 = self.names.next_var;
        let mut j: usize = 0;
        while j < count
            invariant
                j <= count,
                i < self.functions.len(),
                count == f.parameters.len(),
                self.functions@ == functions,
                self.tokens@ == tokens,
                self.current_index == index,
                f == functions_view(functions)[i as int],
                spec_parameter_binders(t1, f.parameters, count as nat, n1) is Some,
                spec_parameter_binders(t1, f.parameters, j as nat, n1) == Some(
                    (term@, self.names.next_var),
                ),
            decreases count - j,
        {
            proof {
                lemma_binders_prefix(t1, f.parameters, count as nat, (j + 1) as nat, n1);
            }
            let para = self.functions[i].parameters[j].clone();
            proof {
                assert(para@ == f.parameters[j as int]);
            }
            if j == count - 1 {
                let entry = concat(para.as_str(), "_entry");
                let body = term.substitute(
                    para.as_str(),
                    Term::Variable { name: entry.clone() },
                    &mut self.names,
                );
                term = Term::Abstraction { binds: entry, term: Box::new(body), location: Location::Main };
            } else {
                term = Term::Abstraction { binds: para, term: Box::new(term), location: Location::Main };
            }
            j = j + 1;
        }
        if self.functions[i].recurses {
            let own = concat(self.functions[i].name.as_str(), "_2_f");
            let bound = concat(self.functions[i].name.as_str(), "_f");
            let body = term.substitute(bound.as_str(), Term::Variable { name: own.clone() }, &mut self.names);
            let inner = Term::Abstraction { binds: own, term: Box::new(body), location: Location::Main };
            let y = Term::y(&mut self.names);
            Term::Application { function: Box::new(y), argument: Box::new(inner), location: Location::Main }
        } else {
            term
        }
    }

    /// Program = (declaration)* EOF
    fn program(&mut self) -> (r: Result<Term, ParserError>)
        requires
            rule_program(old(self).toks(), old(self)@) is Some,
        ensures
            final(self).same_tokens(old(self)),
            final(self).toks() == old(self).toks(),
            rule_program(old(self).toks(), old(self)@) == Some((term_outcome(r), final(self)@)),
    {
        let empty: Vec<Term> = Vec::new();
        proof {
            assert(terms_view(empty@) =~= Seq::<SpecTerm>::empty());
        }
        let statements = match self.program_rest(empty) {
            Ok(s) => s,
            Err(e) => return Err(e),
        };
        if statements.len() == 0 {
            return Err(self.error_here(owned("expected at least one declaration or statement")));
        }
        let mut program = Self::fold_statements(statements);
        let ghost fs = self@.functions;
        let ghost goal = spec_link_functions(program@, fs, self.names.next_var);
        let ghost functions = self.functions@;
        let ghost tokens = self.tokens@;
        let ghost index = self.current_index;
        proof {
            assert(fs.subrange(0, fs.len() as int) =~= fs);
        }
        let mut i = self.functions.len();
        while i > 0
            invariant
                i <= self.functions.len(),
                self.functions@ == functions,
                fs == functions_view(functions),
                self.tokens@ == tokens,
                self.current_index == index,
                goal is Some,
                spec_link_functions(program@, fs.subrange(0, i as int), self.names.next_var) == goal,
            decreases i,
        {
            i = i - 1;
            proof {
                assert(fs.subrange(0, i + 1).drop_last() =~= fs.subrange(0, i as int));
                assert(fs.subrange(0, i + 1).last() == fs[i as int]);
                reveal_with_fuel(term_view, 2);
            }
            let function_term = self.function_term(i);
            let bound = concat(self.functions[i].name.as_str(), "_f");
            program = Term::Application {
                function: Box::new(
                    Term::Abstraction { binds: bound, term: Box::new(program), location: Location::Main },
                ),
                argument: Box::new(function_term),
                location: Location::Main,
            };
        }
        Ok(program)
    }
    /// A parser over the tokens, whose fresh names start at `x1`.
    pub fn new(tokens: Vec<Token>) -> (r: Parser)
        ensures
            r.toks() == tokens_view(tokens@),
            r@ == (SpecParser { index: 0, functions: Seq::empty(), next_var: 1 }),
            r.next_location() == 1,
    {
        Parser::with_names(tokens, NameSupply::new())
    }

    /// A parser over the tokens that draws fresh names from `names`.
    pub fn with_names(tokens: Vec<Token>, names: NameSupply) -> (r: Parser)
        ensures
            r.toks() == tokens_view(tokens@),
            r@ == (SpecParser { index: 0, functions: Seq::empty(), next_var: names.next_var }),
            r.next_location() == names.next_location,
    {
        let r = Parser { tokens, current_index: 0, functions: Vec::new(), names };
        proof {
            assert(functions_view(r.functions@) =~= Seq::<SpecFunction>::empty());
        }
        r
    }

    /// The supply of fresh names as the parser has left it.
    pub fn names(&self) -> (r: NameSupply)
        ensures
            r.next_var == self@.next_var,
            r.next_location == self.next_location(),
    {
        NameSupply { next_var: self.names.next_var, next_location: self.names.next_location }
    }

    /// Reads the whole program into its term.
    pub fn parse(&mut self) -> (r: Result<Term, ParserError>)
        requires
            rule_program(old(self).toks(), old(self)@) is Some,
        ensures
            rule_program(old(self).toks(), old(self)@) == Some((term_outcome(r), final(self)@)),
            final(self).toks() == old(self).toks(),
    {
        self.program()
    }
}

} // verus!

verus! {

/// The text of a parse error: the message, the token found, and where it was found.
pub open spec fn spec_parser_error_text(e: SpecParserError) -> Seq<char> {
    let head = if e.found.lexeme.len() == 0 {
        e.message + " (found EOF)"@
    } else {
        e.message + " (found `"@ + e.found.lexeme + "`)"@
    };
    head + "\n  at line "@ + spec_digits(e.line) + ", column "@ + spec_digits(e.column)
}

impl ParserError {
    /// The error as text: the message, the token found (or EOF), and the line and column.
    pub fn to_text(&self) -> (r: String)
        ensures
            r@ == spec_parser_error_text(self@),
    {
        let mut text = owned(self.message.as_str());
        proof {
            reveal_strlit("");
        }
        let empty = text_eq(self.found.lexeme.as_str(), "");
        proof {
            if self.found.lexeme@.len() == 0 {
                assert(self.found.lexeme@ =~= ""@);
            }
        }
        if empty {
            push_text(&mut text, " (found EOF)");
        } else {
            push_text(&mut text, " (found `");
            push_text(&mut text, self.found.lexeme.as_str());
            push_text(&mut text, "`)");
        }
        push_text(&mut text, "\n  at line ");
        push_text(&mut text, usize_text(self.line).as_str());
        push_text(&mut text, ", column ");
        push_text(&mut text, usize_text(self.column).as_str());
        text
    }
}

} // verus!
