use vstd::prelude::*;
use vstd::std_specs::cmp::PartialEqSpecImpl;

verus! {

/// The kinds of lexical token of Lithe.
#[derive(Debug)]
pub enum TokenType {
    Identifier(String),
    Integer(i32),
    Assignment,
    SemiColon,
    LParen,
    RParen,
    LBrace,
    RBrace,
    LBracket,
    RBracket,
    Arrow,
    Caret,
    RAngleBracket,
    LAngleBracket,
    Or,
    And,
    NotEqual,
    Equal,
    GreaterThanEqual,
    LessThanEqual,
    Plus,
    Minus,
    Divide,
    Modulo,
    Not,
    Dollar,
    Dot,
    Backslash,
    Star,
    Skip,
    While,
    Do,
    Print,
    Input,
    Int,
    Return,
    If,
    Else,
    True,
    False,
    Break,
    Fn,
    Comma,
    EOF,
}

/// The mathematical value of a token kind.
pub enum SpecTokenType {
    Identifier(Seq<char>),
    Integer(i32),
    Assignment,
    SemiColon,
    LParen,
    RParen,
    LBrace,
    RBrace,
    LBracket,
    RBracket,
    Arrow,
    Caret,
    RAngleBracket,
    LAngleBracket,
    Or,
    And,
    NotEqual,
    Equal,
    GreaterThanEqual,
    LessThanEqual,
    Plus,
    Minus,
    Divide,
    Modulo,
    Not,
    Dollar,
    Dot,
    Backslash,
    Star,
    Skip,
    While,
    Do,
    Print,
    Input,
    Int,
    Return,
    If,
    Else,
    True,
    False,
    Break,
    Fn,
    Comma,
    EOF,
}

impl View for TokenType {
    type V = SpecTokenType;

    open spec fn view(&self) -> SpecTokenType {
        match self {
            TokenType::Identifier(s) => SpecTokenType::Identifier(s@),
            TokenType::Integer(i) => SpecTokenType::Integer(*i),
            TokenType::Assignment => SpecTokenType::Assignment,
            TokenType::SemiColon => SpecTokenType::SemiColon,
            TokenType::LParen => SpecTokenType::LParen,
            TokenType::RParen => SpecTokenType::RParen,
            TokenType::LBrace => SpecTokenType::LBrace,
            TokenType::RBrace => SpecTokenType::RBrace,
            TokenType::LBracket => SpecTokenType::LBracket,
            TokenType::RBracket => SpecTokenType::RBracket,
            TokenType::Arrow => SpecTokenType::Arrow,
            TokenType::Caret => SpecTokenType::Caret,
            TokenType::RAngleBracket => SpecTokenType::RAngleBracket,
            TokenType::LAngleBracket => SpecTokenType::LAngleBracket,
            TokenType::Or => SpecTokenType::Or,
            TokenType::And => SpecTokenType::And,
            TokenType::NotEqual => SpecTokenType::NotEqual,
            TokenType::Equal => SpecTokenType::Equal,
            TokenType::GreaterThanEqual => SpecTokenType::GreaterThanEqual,
            TokenType::LessThanEqual => SpecTokenType::LessThanEqual,
            TokenType::Plus => SpecTokenType::Plus,
            TokenType::Minus => SpecTokenType::Minus,
            TokenType::Divide => SpecTokenType::Divide,
            TokenType::Modulo => SpecTokenType::Modulo,
            TokenType::Not => SpecTokenType::Not,
            TokenType::Dollar => SpecTokenType::Dollar,
            TokenType::Dot => SpecTokenType::Dot,
            TokenType::Backslash => SpecTokenType::Backslash,
            TokenType::Star => SpecTokenType::Star,
            TokenType::Skip => SpecTokenType::Skip,
            TokenType::While => SpecTokenType::While,
            TokenType::Do => SpecTokenType::Do,
            TokenType::Print => SpecTokenType::Print,
            TokenType::Input => SpecTokenType::Input,
            TokenType::Int => SpecTokenType::Int,
            TokenType::Return => SpecTokenType::Return,
            TokenType::If => SpecTokenType::If,
            TokenType::Else => SpecTokenType::Else,
            TokenType::True => SpecTokenType::True,
            TokenType::False => SpecTokenType::False,
            TokenType::Break => SpecTokenType::Break,
            TokenType::Fn => SpecTokenType::Fn,
            TokenType::Comma => SpecTokenType::Comma,
            TokenType::EOF => SpecTokenType::EOF,
        }
    }
}

/// Whether a token kind can stand for a choice.
pub open spec fn spec_is_choice(t: SpecTokenType) -> bool {
    match t {
        SpecTokenType::Integer(_) | SpecTokenType::True | SpecTokenType::False
        | SpecTokenType::Break | SpecTokenType::Return | SpecTokenType::Skip => true,
        _ => false,
    }
}

/// The name of a token kind without payload, as `Debug` writes it.
pub open spec fn spec_kind_name(t: SpecTokenType) -> Seq<char> {
    match t {
        SpecTokenType::Identifier(_) => "Identifier"@,
        SpecTokenType::Integer(_) => "Integer"@,
        SpecTokenType::Assignment => "Assignment"@,
        SpecTokenType::SemiColon => "SemiColon"@,
        SpecTokenType::LParen => "LParen"@,
        SpecTokenType::RParen => "RParen"@,
        SpecTokenType::LBrace => "LBrace"@,
        SpecTokenType::RBrace => "RBrace"@,
        SpecTokenType::LBracket => "LBracket"@,
        SpecTokenType::RBracket => "RBracket"@,
        SpecTokenType::Arrow => "Arrow"@,
        SpecTokenType::Caret => "Caret"@,
        SpecTokenType::RAngleBracket => "RAngleBracket"@,
        SpecTokenType::LAngleBracket => "LAngleBracket"@,
        SpecTokenType::Or => "Or"@,
        SpecTokenType::And => "And"@,
        SpecTokenType::NotEqual => "NotEqual"@,
        SpecTokenType::Equal => "Equal"@,
        SpecTokenType::GreaterThanEqual => "GreaterThanEqual"@,
        SpecTokenType::LessThanEqual => "LessThanEqual"@,
        SpecTokenType::Plus => "Plus"@,
        SpecTokenType::Minus => "Minus"@,
        SpecTokenType::Divide => "Divide"@,
        SpecTokenType::Modulo => "Modulo"@,
        SpecTokenType::Not => "Not"@,
        SpecTokenType::Dollar => "Dollar"@,
        SpecTokenType::Dot => "Dot"@,
        SpecTokenType::Backslash => "Backslash"@,
        SpecTokenType::Star => "Star"@,
        SpecTokenType::Skip => "Skip"@,
        SpecTokenType::While => "While"@,
        SpecTokenType::Do => "Do"@,
        SpecTokenType::Print => "Print"@,
        SpecTokenType::Input => "Input"@,
        SpecTokenType::Int => "Int"@,
        SpecTokenType::Return => "Return"@,
        SpecTokenType::If => "If"@,
        SpecTokenType::Else => "Else"@,
        SpecTokenType::True => "True"@,
        SpecTokenType::False => "False"@,
        SpecTokenType::Break => "Break"@,
        SpecTokenType::Fn => "Fn"@,
        SpecTokenType::Comma => "Comma"@,
        SpecTokenType::EOF => "EOF"@,
    }
}

impl TokenType {
    /// Whether the token kind can stand for a choice.
    pub fn is_choice(&self) -> (r: bool)
        ensures
            r == spec_is_choice(self@),
    {
        match self {
            TokenType::Integer(_) | TokenType::True | TokenType::False | TokenType::Break
            | TokenType::Return | TokenType::Skip => true,
            _ => false,
        }
    }

    /// The name of the token kind (for a kind without payload, what `Debug` writes).
    pub fn kind_name(&self) -> (r: &'static str)
        ensures
            r@ == spec_kind_name(self@),
    {
        match self {
            TokenType::Identifier(_) => "Identifier",
            TokenType::Integer(_) => "Integer",
            TokenType::Assignment => "Assignment",
            TokenType::SemiColon => "SemiColon",
            TokenType::LParen => "LParen",
            TokenType::RParen => "RParen",
            TokenType::LBrace => "LBrace",
            TokenType::RBrace => "RBrace",
            TokenType::LBracket => "LBracket",
            TokenType::RBracket => "RBracket",
            TokenType::Arrow => "Arrow",
            TokenType::Caret => "Caret",
            TokenType::RAngleBracket => "RAngleBracket",
            TokenType::LAngleBracket => "LAngleBracket",
            TokenType::Or => "Or",
            TokenType::And => "And",
            TokenType::NotEqual => "NotEqual",
            TokenType::Equal => "Equal",
            TokenType::GreaterThanEqual => "GreaterThanEqual",
            TokenType::LessThanEqual => "LessThanEqual",
            TokenType::Plus => "Plus",
            TokenType::Minus => "Minus",
            TokenType::Divide => "Divide",
            TokenType::Modulo => "Modulo",
            TokenType::Not => "Not",
            TokenType::Dollar => "Dollar",
            TokenType::Dot => "Dot",
            TokenType::Backslash => "Backslash",
            TokenType::Star => "Star",
            TokenType::Skip => "Skip",
            TokenType::While => "While",
            TokenType::Do => "Do",
            TokenType::Print => "Print",
            TokenType::Input => "Input",
            TokenType::Int => "Int",
            TokenType::Return => "Return",
            TokenType::If => "If",
            TokenType::Else => "Else",
            TokenType::True => "True",
            TokenType::False => "False",
            TokenType::Break => "Break",
            TokenType::Fn => "Fn",
            TokenType::Comma => "Comma",
            TokenType::EOF => "EOF",
        }
    }

    /// Compares two token kinds by value.
    pub fn same(&self, other: &TokenType) -> (r: bool)
        ensures
            r == (self@ == other@),
    {
        match (self, other) {
            (TokenType::Identifier(a), TokenType::Identifier(b)) => a.eq(b),
            (TokenType::Integer(a), TokenType::Integer(b)) => *a == *b,
            (TokenType::Assignment, TokenType::Assignment) => true,
            (TokenType::SemiColon, TokenType::SemiColon) => true,
            (TokenType::LParen, TokenType::LParen) => true,
            (TokenType::RParen, TokenType::RParen) => true,
            (TokenType::LBrace, TokenType::LBrace) => true,
            (TokenType::RBrace, TokenType::RBrace) => true,
            (TokenType::LBracket, TokenType::LBracket) => true,
            (TokenType::RBracket, TokenType::RBracket) => true,
            (TokenType::Arrow, TokenType::Arrow) => true,
            (TokenType::Caret, TokenType::Caret) => true,
            (TokenType::RAngleBracket, TokenType::RAngleBracket) => true,
            (TokenType::LAngleBracket, TokenType::LAngleBracket) => true,
            (TokenType::Or, TokenType::Or) => true,
            (TokenType::And, TokenType::And) => true,
            (TokenType::NotEqual, TokenType::NotEqual) => true,
            (TokenType::Equal, TokenType::Equal) => true,
            (TokenType::GreaterThanEqual, TokenType::GreaterThanEqual) => true,
            (TokenType::LessThanEqual, TokenType::LessThanEqual) => true,
            (TokenType::Plus, TokenType::Plus) => true,
            (TokenType::Minus, TokenType::Minus) => true,
            (TokenType::Divide, TokenType::Divide) => true,
            (TokenType::Modulo, TokenType::Modulo) => true,
            (TokenType::Not, TokenType::Not) => true,
            (TokenType::Dollar, TokenType::Dollar) => true,
            (TokenType::Dot, TokenType::Dot) => true,
            (TokenType::Backslash, TokenType::Backslash) => true,
            (TokenType::Star, TokenType::Star) => true,
            (TokenType::Skip, TokenType::Skip) => true,
            (TokenType::While, TokenType::While) => true,
            (TokenType::Do, TokenType::Do) => true,
            (TokenType::Print, TokenType::Print) => true,
            (TokenType::Input, TokenType::Input) => true,
            (TokenType::Int, TokenType::Int) => true,
            (TokenType::Return, TokenType::Return) => true,
            (TokenType::If, TokenType::If) => true,
            (TokenType::Else, TokenType::Else) => true,
            (TokenType::True, TokenType::True) => true,
            (TokenType::False, TokenType::False) => true,
            (TokenType::Break, TokenType::Break) => true,
            (TokenType::Fn, TokenType::Fn) => true,
            (TokenType::Comma, TokenType::Comma) => true,
            (TokenType::EOF, TokenType::EOF) => true,
            _ => false,
        }
    }

    /// Copies a token kind.
    pub fn duplicate(&self) -> (r: TokenType)
        ensures
            r@ == self@,
    {
        match self {
            TokenType::Identifier(s) => TokenType::Identifier(s.clone()),
            TokenType::Integer(i) => TokenType::Integer(*i),
            TokenType::Assignment => TokenType::Assignment,
            TokenType::SemiColon => TokenType::SemiColon,
            TokenType::LParen => TokenType::LParen,
            TokenType::RParen => TokenType::RParen,
            TokenType::LBrace => TokenType::LBrace,
            TokenType::RBrace => TokenType::RBrace,
            TokenType::LBracket => TokenType::LBracket,
            TokenType::RBracket => TokenType::RBracket,
            TokenType::Arrow => TokenType::Arrow,
            TokenType::Caret => TokenType::Caret,
            TokenType::RAngleBracket => TokenType::RAngleBracket,
            TokenType::LAngleBracket => TokenType::LAngleBracket,
            TokenType::Or => TokenType::Or,
            TokenType::And => TokenType::And,
            TokenType::NotEqual => TokenType::NotEqual,
            TokenType::Equal => TokenType::Equal,
            TokenType::GreaterThanEqual => TokenType::GreaterThanEqual,
            TokenType::LessThanEqual => TokenType::LessThanEqual,
            TokenType::Plus => TokenType::Plus,
            TokenType::Minus => TokenType::Minus,
            TokenType::Divide => TokenType::Divide,
            TokenType::Modulo => TokenType::Modulo,
            TokenType::Not => TokenType::Not,
            TokenType::Dollar => TokenType::Dollar,
            TokenType::Dot => TokenType::Dot,
            TokenType::Backslash => TokenType::Backslash,
            TokenType::Star => TokenType::Star,
            TokenType::Skip => TokenType::Skip,
            TokenType::While => TokenType::While,
            TokenType::Do => TokenType::Do,
            TokenType::Print => TokenType::Print,
            TokenType::Input => TokenType::Input,
            TokenType::Int => TokenType::Int,
            TokenType::Return => TokenType::Return,
            TokenType::If => TokenType::If,
            TokenType::Else => TokenType::Else,
            TokenType::True => TokenType::True,
            TokenType::False => TokenType::False,
            TokenType::Break => TokenType::Break,
            TokenType::Fn => TokenType::Fn,
            TokenType::Comma => TokenType::Comma,
            TokenType::EOF => TokenType::EOF,
        }
    }
}

impl PartialEq for TokenType {
    fn eq(&self, other: &Self) -> (r: bool) {
        self.same(other)
    }
}

impl PartialEqSpecImpl for TokenType {
    open spec fn obeys_eq_spec() -> bool {
        true
    }

    open spec fn eq_spec(&self, other: &TokenType) -> bool {
        self@ == other@
    }
}

impl Clone for TokenType {
    fn clone(&self) -> (r: Self)
        ensures
            r@ == self@,
    {
        self.duplicate()
    }
}

/// A token: its kind, the text it was read from and where that text starts.
#[derive(Debug)]
pub struct Token {
    pub token_type: TokenType,
    pub lexeme: String,
    pub line: usize,
    pub column: usize,
}

/// The mathematical value of a token.
pub struct SpecToken {
    pub token_type: SpecTokenType,
    pub lexeme: Seq<char>,
    pub line: nat,
    pub column: nat,
}

impl View for Token {
    type V = SpecToken;

    open spec fn view(&self) -> SpecToken {
        SpecToken {
            token_type: self.token_type@,
            lexeme: self.lexeme@,
            line: self.line as nat,
            column: self.column as nat,
        }
    }
}

impl Clone for Token {
    fn clone(&self) -> (r: Self)
        ensures
            r@ == self@,
    {
        Token {
            token_type: self.token_type.clone(),
            lexeme: self.lexeme.clone(),
            line: self.line,
            column: self.column,
        }
    }
}

} // verus!
