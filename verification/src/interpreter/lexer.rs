use vstd::prelude::*;
use vstd::string::StrSliceExecFns;

use crate::interpreter::token::{SpecToken, SpecTokenType, Token, TokenType};
use crate::text::{
    lemma_digits, owned, push_char, push_text, spec_digit_char, spec_digits, text_eq, usize_text,
};

verus! {

/// Turns Lithe source text into tokens.
pub struct Lexer {
    source: String,
}

/// The tokens of a source text, ending with `EOF`, and the errors met on the way.
#[derive(Debug)]
pub struct LexerResult {
    pub tokens: Vec<Token>,
    pub errors: Vec<LexerError>,
}

/// A lexical error: where it starts (character index, line, column) and what it is.
#[derive(Debug)]
pub struct LexerError {
    pub index: usize,
    pub line: usize,
    pub column: usize,
    pub error_type: LexerErrorType,
}

/// The kinds of lexical error.
#[derive(Debug)]
pub enum LexerErrorType {
    UnexpectedToken { lexeme: String },
    IncompleteEqual,
    IncompleteAnd,
    IncompleteOr,
    IncompleteAssignment,
}

/// The mathematical value of a lexical error kind.
pub enum SpecLexerErrorType {
    UnexpectedToken { lexeme: Seq<char> },
    IncompleteEqual,
    IncompleteAnd,
    IncompleteOr,
    IncompleteAssignment,
}

/// The mathematical value of a lexical error.
pub struct SpecLexerError {
    pub index: nat,
    pub line: nat,
    pub column: nat,
    pub error_type: SpecLexerErrorType,
}

impl View for LexerErrorType {
    type V = SpecLexerErrorType;

    open spec fn view(&self) -> SpecLexerErrorType {
        match self {
            LexerErrorType::UnexpectedToken { lexeme } => SpecLexerErrorType::UnexpectedToken {
                lexeme: lexeme@,
            },
            LexerErrorType::IncompleteEqual => SpecLexerErrorType::IncompleteEqual,
            LexerErrorType::IncompleteAnd => SpecLexerErrorType::IncompleteAnd,
            LexerErrorType::IncompleteOr => SpecLexerErrorType::IncompleteOr,
            LexerErrorType::IncompleteAssignment => SpecLexerErrorType::IncompleteAssignment,
        }
    }
}

impl View for LexerError {
    type V = SpecLexerError;

    open spec fn view(&self) -> SpecLexerError {
        SpecLexerError {
            index: self.index as nat,
            line: self.line as nat,
            column: self.column as nat,
            error_type: self.error_type@,
        }
    }
}

/// What one scan from a position yields: nothing (white space), an error, or a token.
pub enum SpecScan {
    Skip,
    Error(SpecLexerErrorType),
    Emit(SpecTokenType),
}

/// An ASCII decimal digit.
pub open spec fn spec_is_digit(c: char) -> bool {
    '0' <= c && c <= '9'
}

/// An ASCII letter.
pub open spec fn spec_is_alpha(c: char) -> bool {
    ('a' <= c && c <= 'z') || ('A' <= c && c <= 'Z')
}

/// A character that may continue an identifier: an ASCII letter or digit, or `_`.
pub open spec fn spec_is_word(c: char) -> bool {
    spec_is_alpha(c) || spec_is_digit(c) || c == '_'
}

/// ASCII white space: space, tab, line feed, form feed, carriage return.
pub open spec fn spec_is_space(c: char) -> bool {
    c == ' ' || c == '\t' || c == '\n' || c == '\x0C' || c == '\r'
}

/// The number of consecutive identifier characters (`word`) or digits from position `i`.
pub open spec fn spec_run(s: Seq<char>, i: int, word: bool) -> nat
    decreases s.len() - i,
{
    if 0 <= i < s.len() && (if word {
        spec_is_word(s[i])
    } else {
        spec_is_digit(s[i])
    }) {
        1 + spec_run(s, i + 1, word)
    } else {
        0
    }
}

/// The value of a sequence of decimal digits.
pub open spec fn spec_number(d: Seq<char>) -> int
    decreases d.len(),
{
    if d.len() == 0 {
        0
    } else {
        spec_number(d.drop_last()) * 10 + (d.last() as int - '0' as int)
    }
}

/// The token kind of a word: a keyword or an identifier.
pub open spec fn spec_keyword(w: Seq<char>) -> SpecTokenType {
    if false {
        SpecTokenType::EOF
    } else if w == "while"@ {
        SpecTokenType::While
    } else if w == "do"@ {
        SpecTokenType::Do
    } else if w == "print"@ {
        SpecTokenType::Print
    } else if w == "input"@ {
        SpecTokenType::Input
    } else if w == "int"@ {
        SpecTokenType::Int
    } else if w == "return"@ {
        SpecTokenType::Return
    } else if w == "if"@ {
        SpecTokenType::If
    } else if w == "else"@ {
        SpecTokenType::Else
    } else if w == "break"@ {
        SpecTokenType::Break
    } else if w == "true"@ {
        SpecTokenType::True
    } else if w == "false"@ {
        SpecTokenType::False
    } else if w == "fn"@ {
        SpecTokenType::Fn
    } else {
        SpecTokenType::Identifier(w)
    }
}

/// Whether the character after position `i` is `next`.
pub open spec fn spec_next_is(s: Seq<char>, i: int, next: char) -> bool {
    i + 1 < s.len() && s[i + 1] == next
}

/// One scan from position `i`: what it yields and how many characters it reads (at least
/// one); `None` for a run of digits whose value exceeds `i32::MAX`.
pub open spec fn spec_scan(s: Seq<char>, i: int) -> Option<(SpecScan, nat)> {
    let c = s[i];
    if c == '_' {
        Some((SpecScan::Emit(SpecTokenType::Identifier(seq!['_'])), 1))
    } else if c == '[' {
        Some((SpecScan::Emit(SpecTokenType::LBracket), 1))
    } else if c == ']' {
        Some((SpecScan::Emit(SpecTokenType::RBracket), 1))
    } else if c == '(' {
        Some((SpecScan::Emit(SpecTokenType::LParen), 1))
    } else if c == ')' {
        Some((SpecScan::Emit(SpecTokenType::RParen), 1))
    } else if c == '{' {
        Some((SpecScan::Emit(SpecTokenType::LBrace), 1))
    } else if c == '}' {
        Some((SpecScan::Emit(SpecTokenType::RBrace), 1))
    } else if c == '.' {
        Some((SpecScan::Emit(SpecTokenType::Dot), 1))
    } else if c == '^' {
        Some((SpecScan::Emit(SpecTokenType::Caret), 1))
    } else if c == ';' {
        Some((SpecScan::Emit(SpecTokenType::SemiColon), 1))
    } else if c == '$' {
        Some((SpecScan::Emit(SpecTokenType::Dollar), 1))
    } else if c == '*' {
        Some((SpecScan::Emit(SpecTokenType::Star), 1))
    } else if c == '+' {
        Some((SpecScan::Emit(SpecTokenType::Plus), 1))
    } else if c == '/' {
        Some((SpecScan::Emit(SpecTokenType::Divide), 1))
    } else if c == '%' {
        Some((SpecScan::Emit(SpecTokenType::Modulo), 1))
    } else if c == '\\' {
        Some((SpecScan::Emit(SpecTokenType::Backslash), 1))
    } else if c == '#' {
        Some((SpecScan::Emit(SpecTokenType::Skip), 1))
    } else if c == ',' {
        Some((SpecScan::Emit(SpecTokenType::Comma), 1))
    } else if c == '!' {
        if spec_next_is(s, i, '=') {
            Some((SpecScan::Emit(SpecTokenType::NotEqual), 2))
        } else {
            Some((SpecScan::Emit(SpecTokenType::Not), 1))
        }
    } else if c == '<' {
        if spec_next_is(s, i, '=') {
            Some((SpecScan::Emit(SpecTokenType::LessThanEqual), 2))
        } else {
            Some((SpecScan::Emit(SpecTokenType::LAngleBracket), 1))
        }
    } else if c == '>' {
        if spec_next_is(s, i, '=') {
            Some((SpecScan::Emit(SpecTokenType::GreaterThanEqual), 2))
        } else {
            Some((SpecScan::Emit(SpecTokenType::RAngleBracket), 1))
        }
    } else if c == '-' {
        if spec_next_is(s, i, '>') {
            Some((SpecScan::Emit(SpecTokenType::Arrow), 2))
        } else {
            Some((SpecScan::Emit(SpecTokenType::Minus), 1))
        }
    } else if c == ':' {
        if spec_next_is(s, i, '=') {
            Some((SpecScan::Emit(SpecTokenType::Assignment), 2))
        } else {
            Some((SpecScan::Error(SpecLexerErrorType::IncompleteAssignment), 1))
        }
    } else if c == '|' {
        if spec_next_is(s, i, '|') {
            Some((SpecScan::Emit(SpecTokenType::Or), 2))
        } else {
            Some((SpecScan::Error(SpecLexerErrorType::IncompleteOr), 1))
        }
    } else if c == '&' {
        if spec_next_is(s, i, '&') {
            Some((SpecScan::Emit(SpecTokenType::And), 2))
        } else {
            Some((SpecScan::Error(SpecLexerErrorType::IncompleteAnd), 1))
        }
    } else if c == '=' {
        if spec_next_is(s, i, '=') {
            Some((SpecScan::Emit(SpecTokenType::Equal), 2))
        } else {
            Some((SpecScan::Error(SpecLexerErrorType::IncompleteEqual), 1))
        }
    } else if spec_is_space(c) {
        Some((SpecScan::Skip, 1))
    } else if spec_is_digit(c) {
        let len = 1 + spec_run(s, i + 1, false);
        let value = spec_number(s.subrange(i, i + len));
        if value > i32::MAX {
            None
        } else {
            Some((SpecScan::Emit(SpecTokenType::Integer(value as i32)), len))
        }
    } else if spec_is_alpha(c) {
        let len = 1 + spec_run(s, i + 1, true);
        Some((SpecScan::Emit(spec_keyword(s.subrange(i, i + len))), len))
    } else {
        Some((SpecScan::Error(SpecLexerErrorType::UnexpectedToken { lexeme: seq![c] }), 1))
    }
}

/// The line and column after reading `text` from `(line, column)`: a line feed starts the
/// next line at column 1, any other character moves one column on.
pub open spec fn spec_advance(line: nat, column: nat, text: Seq<char>) -> (nat, nat)
    decreases text.len(),
{
    if text.len() == 0 {
        (line, column)
    } else {
        let (l, c) = spec_advance(line, column, text.drop_last());
        if text.last() == '\n' {
            (l + 1, 1)
        } else {
            (l, c + 1)
        }
    }
}

/// Lexing from position `i` at `(line, column)`: the tokens (the last being `EOF` at the
/// end position) and the errors, each in source order; `None` where a number is too large.
pub open spec fn spec_lex(s: Seq<char>, i: nat, line: nat, column: nat) -> Option<
    (Seq<SpecToken>, Seq<SpecLexerError>),
>
    decreases s.len() - i,
{
    if i >= s.len() {
        Some(
            (
                seq![
                    SpecToken {
                        token_type: SpecTokenType::EOF,
                        lexeme: Seq::empty(),
                        line,
                        column,
                    },
                ],
                Seq::empty(),
            ),
        )
    } else {
        match spec_scan(s, i as int) {
            None => None,
            Some((scan, len)) => {
                let lexeme = s.subrange(i as int, (i + len) as int);
                let (l2, c2) = spec_advance(line, column, lexeme);
                if len == 0 || i + len > s.len() {
                    None
                } else {
                    match spec_lex(s, i + len, l2, c2) {
                        None => None,
                        Some((tokens, errors)) => match scan {
                            SpecScan::Skip => Some((tokens, errors)),
                            SpecScan::Error(e) => Some(
                                (
                                    tokens,
                                    seq![
                                        SpecLexerError {
                                            index: i,
                                            line,
                                            column,
                                            error_type: e,
                                        },
                                    ] + errors,
                                ),
                            ),
                            SpecScan::Emit(t) => Some(
                                (
                                    seq![
                                        SpecToken { token_type: t, lexeme, line, column },
                                    ] + tokens,
                                    errors,
                                ),
                            ),
                        },
                    }
                }
            },
        }
    }
}

/// Lexing a whole text from line 1, column 1.
pub open spec fn spec_tokenise(s: Seq<char>) -> Option<(Seq<SpecToken>, Seq<SpecLexerError>)> {
    spec_lex(s, 0, 1, 1)
}

/// The values of a list of tokens.
pub open spec fn tokens_view(v: Seq<Token>) -> Seq<SpecToken> {
    Seq::new(v.len(), |i: int| v[i]@)
}

/// The values of a list of lexical errors.
pub open spec fn errors_view(v: Seq<LexerError>) -> Seq<SpecLexerError> {
    Seq::new(v.len(), |i: int| v[i]@)
}

/// What one scan yields.
enum Scan {
    Skip,
    Error(LexerErrorType),
    Emit(TokenType),
}

/// The mathematical value of a scan.
spec fn scan_view(s: Scan) -> SpecScan {
    match s {
        Scan::Skip => SpecScan::Skip,
        Scan::Error(e) => SpecScan::Error(e@),
        Scan::Emit(t) => SpecScan::Emit(t@),
    }
}

/// The characters of a text, in order.
pub(crate) fn chars_of(s: &str) -> (r: Vec<char>)
    ensures
        r@ == s@,
{
    let n = s.unicode_len();
    let mut r: Vec<char> = Vec::new();
    let mut i: usize = 0;
    while i < n
        invariant
            n == s@.len(),
            i <= n,
            r@ == s@.subrange(0, i as int),
        decreases n - i,
    {
        r.push(s.get_char(i));
        i = i + 1;
        assert(r@ =~= s@.subrange(0, i as int));
    }
    assert(s@.subrange(0, n as int) =~= s@);
    r
}

fn is_digit(c: char) -> (r: bool)
    ensures
        r == spec_is_digit(c),
{
    '0' <= c && c <= '9'
}

fn is_alpha(c: char) -> (r: bool)
    ensures
        r == spec_is_alpha(c),
{
    ('a' <= c && c <= 'z') || ('A' <= c && c <= 'Z')
}

fn is_word(c: char) -> (r: bool)
    ensures
        r == spec_is_word(c),
{
    is_alpha(c) || is_digit(c) || c == '_'
}

fn is_space(c: char) -> (r: bool)
    ensures
        r == spec_is_space(c),
{
    c == ' ' || c == '\t' || c == '\n' || c == '\x0C' || c == '\r'
}

fn next_is(chars: &Vec<char>, i: usize, next: char) -> (r: bool)
    requires
        i < chars.len(),
    ensures
        r == spec_next_is(chars@, i as int, next),
{
    i + 1 < chars.len() && chars[i + 1] == next
}

fn keyword(w: &str) -> (r: TokenType)
    ensures
        r@ == spec_keyword(w@),
{
    if false {
        TokenType::EOF
    } else if text_eq(w, "while") {
        TokenType::While
    } else if text_eq(w, "do") {
        TokenType::Do
    } else if text_eq(w, "print") {
        TokenType::Print
    } else if text_eq(w, "input") {
        TokenType::Input
    } else if text_eq(w, "int") {
        TokenType::Int
    } else if text_eq(w, "return") {
        TokenType::Return
    } else if text_eq(w, "if") {
        TokenType::If
    } else if text_eq(w, "else") {
        TokenType::Else
    } else if text_eq(w, "break") {
        TokenType::Break
    } else if text_eq(w, "true") {
        TokenType::True
    } else if text_eq(w, "false") {
        TokenType::False
    } else if text_eq(w, "fn") {
        TokenType::Fn
    } else {
        TokenType::Identifier(owned(w))
    }
}

/// Whether a character continues a run of identifier characters (`word`) or of digits.
fn continues_run(c: char, word: bool) -> (r: bool)
    ensures
        r == (if word {
            spec_is_word(c)
        } else {
            spec_is_digit(c)
        }),
{
    if word {
        is_word(c)
    } else {
        is_digit(c)
    }
}

/// The length of the run of identifier characters or digits from `i`.
fn run_length(chars: &Vec<char>, i: usize, word: bool) -> (r: usize)
    requires
        i <= chars.len(),
    ensures
        r == spec_run(chars@, i as int, word),
        i + r <= chars.len(),
{
    let mut j = i;
    while j < chars.len() && continues_run(chars[j], word)
        invariant
            i <= j <= chars.len(),
            spec_run(chars@, i as int, word) == (j - i) + spec_run(chars@, j as int, word),
        decreases chars.len() - j,
    {
        j = j + 1;
    }
    j - i
}

/// The characters `chars[from..to]` as a string.
fn text_of(chars: &Vec<char>, from: usize, to: usize) -> (r: String)
    requires
        from <= to <= chars.len(),
    ensures
        r@ == chars@.subrange(from as int, to as int),
{
    let mut s = String::new();
    let mut j = from;
    while j < to
        invariant
            from <= j <= to <= chars.len(),
            s@ == chars@.subrange(from as int, j as int),
        decreases to - j,
    {
        push_char(&mut s, chars[j]);
        assert(chars@.subrange(from as int, j + 1) =~= chars@.subrange(from as int, j as int).push(
            chars@[j as int],
        ));
        j = j + 1;
    }
    s
}

/// The value of the digits `chars[from..to]`, or `i32::MAX + 1` where it is larger.
fn number_value(chars: &Vec<char>, from: usize, to: usize) -> (r: i64)
    requires
        from <= to <= chars.len(),
        forall|k: int| from <= k < to ==> spec_is_digit(#[trigger] chars@[k]),
    ensures
        r == (if spec_number(chars@.subrange(from as int, to as int)) > i32::MAX {
            i32::MAX + 1
        } else {
            spec_number(chars@.subrange(from as int, to as int))
        }),
{
    let mut v: i64 = 0;
    let mut j = from;
    assert(chars@.subrange(from as int, from as int) =~= Seq::<char>::empty());
    while j < to
        invariant
            from <= j <= to <= chars.len(),
            forall|k: int| from <= k < to ==> spec_is_digit(#[trigger] chars@[k]),
            spec_number(chars@.subrange(from as int, j as int)) >= 0,
            v == (if spec_number(chars@.subrange(from as int, j as int)) > i32::MAX {
                i32::MAX + 1
            } else {
                spec_number(chars@.subrange(from as int, j as int))
            }),
        decreases to - j,
    {
        let ghost prefix = chars@.subrange(from as int, j as int);
        let ghost next = chars@.subrange(from as int, j + 1);
        assert(next.drop_last() =~= prefix);
        assert(next.last() == chars@[j as int]);
        let d = (chars[j] as u32 - '0' as u32) as i64;
        assert(spec_is_digit(chars@[j as int]));
        if v > i32::MAX as i64 {
            v = i32::MAX as i64 + 1;
        } else {
            v = v * 10 + d;
            if v > i32::MAX as i64 {
                v = i32::MAX as i64 + 1;
            }
        }
        j = j + 1;
    }
    v
}

/// One scan from position `i` (see `spec_scan`).
fn scan(chars: &Vec<char>, i: usize) -> (r: (Scan, usize))
    requires
        i < chars.len(),
        spec_scan(chars@, i as int) is Some,
    ensures
        spec_scan(chars@, i as int) == Some((scan_view(r.0), r.1 as nat)),
        1 <= r.1,
        i + r.1 <= chars.len(),
{
    let c = chars[i];
    if c == '_' {
        proof {
            reveal_strlit("_");
            assert("_"@ =~= seq!['_']);
        }
        (Scan::Emit(TokenType::Identifier(owned("_"))), 1)
    } else if c == '[' {
        (Scan::Emit(TokenType::LBracket), 1)
    } else if c == ']' {
        (Scan::Emit(TokenType::RBracket), 1)
    } else if c == '(' {
        (Scan::Emit(TokenType::LParen), 1)
    } else if c == ')' {
        (Scan::Emit(TokenType::RParen), 1)
    } else if c == '{' {
        (Scan::Emit(TokenType::LBrace), 1)
    } else if c == '}' {
        (Scan::Emit(TokenType::RBrace), 1)
    } else if c == '.' {
        (Scan::Emit(TokenType::Dot), 1)
    } else if c == '^' {
        (Scan::Emit(TokenType::Caret), 1)
    } else if c == ';' {
        (Scan::Emit(TokenType::SemiColon), 1)
    } else if c == '$' {
        (Scan::Emit(TokenType::Dollar), 1)
    } else if c == '*' {
        (Scan::Emit(TokenType::Star), 1)
    } else if c == '+' {
        (Scan::Emit(TokenType::Plus), 1)
    } else if c == '/' {
        (Scan::Emit(TokenType::Divide), 1)
    } else if c == '%' {
        (Scan::Emit(TokenType::Modulo), 1)
    } else if c == '\\' {
        (Scan::Emit(TokenType::Backslash), 1)
    } else if c == '#' {
        (Scan::Emit(TokenType::Skip), 1)
    } else if c == ',' {
        (Scan::Emit(TokenType::Comma), 1)
    } else if c == '!' {
        if next_is(chars, i, '=') {
            (Scan::Emit(TokenType::NotEqual), 2)
        } else {
            (Scan::Emit(TokenType::Not), 1)
        }
    } else if c == '<' {
        if next_is(chars, i, '=') {
            (Scan::Emit(TokenType::LessThanEqual), 2)
        } else {
            (Scan::Emit(TokenType::LAngleBracket), 1)
        }
    } else if c == '>' {
        if next_is(chars, i, '=') {
            (Scan::Emit(TokenType::GreaterThanEqual), 2)
        } else {
            (Scan::Emit(TokenType::RAngleBracket), 1)
        }
    } else if c == '-' {
        if next_is(chars, i, '>') {
            (Scan::Emit(TokenType::Arrow), 2)
        } else {
            (Scan::Emit(TokenType::Minus), 1)
        }
    } else if c == ':' {
        if next_is(chars, i, '=') {
            (Scan::Emit(TokenType::Assignment), 2)
        } else {
            (Scan::Error(LexerErrorType::IncompleteAssignment), 1)
        }
    } else if c == '|' {
        if next_is(chars, i, '|') {
            (Scan::Emit(TokenType::Or), 2)
        } else {
            (Scan::Error(LexerErrorType::IncompleteOr), 1)
        }
    } else if c == '&' {
        if next_is(chars, i, '&') {
            (Scan::Emit(TokenType::And), 2)
        } else {
            (Scan::Error(LexerErrorType::IncompleteAnd), 1)
        }
    } else if c == '=' {
        if next_is(chars, i, '=') {
            (Scan::Emit(TokenType::Equal), 2)
        } else {
            (Scan::Error(LexerErrorType::IncompleteEqual), 1)
        }
    } else if is_space(c) {
        (Scan::Skip, 1)
    } else if is_digit(c) {
        let len = 1 + run_length(chars, i + 1, false);
        proof {
            lemma_run_digits(chars@, i + 1);
        }
        let value = number_value(chars, i, i + len);
        (Scan::Emit(TokenType::Integer(value as i32)), len)
    } else if is_alpha(c) {
        let len = 1 + run_length(chars, i + 1, true);
        let word = text_of(chars, i, i + len);
        (Scan::Emit(keyword(word.as_str())), len)
    } else {
        let mut lexeme = String::new();
        push_char(&mut lexeme, c);
        assert(lexeme@ =~= seq![c]);
        (Scan::Error(LexerErrorType::UnexpectedToken { lexeme }), 1)
    }
}

/// The characters of a run of digits are digits, and the run stays within the text.
proof fn lemma_run_digits(s: Seq<char>, i: int)
    requires
        0 <= i <= s.len(),
    ensures
        forall|k: int| i <= k < i + spec_run(s, i, false) ==> spec_is_digit(#[trigger] s[k]),
        i + spec_run(s, i, false) <= s.len(),
    decreases s.len() - i,
{
    if i < s.len() && spec_is_digit(s[i]) {
        lemma_run_digits(s, i + 1);
    }
}

impl Lexer {
    /// The source text.
    pub closed spec fn source_text(&self) -> Seq<char> {
        self.source@
    }

    /// A lexer over the given source text.
    pub fn new(source: String) -> (r: Lexer)
        ensures
            r.source_text() == source@,
    {
        Lexer { source }
    }


    /// Splits the source into tokens, recording the line and column where each starts, and
    /// reports every character sequence that is no token; lexing goes on after an error.
    pub fn tokenise(&self) -> (r: LexerResult)
        requires
            self.source_text().len() < usize::MAX,
            spec_tokenise(self.source_text()) is Some,
        ensures
            spec_tokenise(self.source_text()) == Some(
                (tokens_view(r.tokens@), errors_view(r.errors@)),
            ),
    {
        let chars = chars_of(self.source.as_str());
        let mut tokens: Vec<Token> = Vec::new();
        let mut errors: Vec<LexerError> = Vec::new();
        let mut i: usize = 0;
        let mut line: usize = 1;
        let mut column: usize = 1;
        proof {
            assert(tokens_view(tokens@) =~= Seq::<SpecToken>::empty());
            assert(errors_view(errors@) =~= Seq::<SpecLexerError>::empty());
        }
        while i < chars.len()
            invariant
                chars@ == self.source@,
                chars.len() < usize::MAX,
                i <= chars.len(),
                1 <= line <= i + 1,
                1 <= column <= i + 1,
                spec_lex(chars@, i as nat, line as nat, column as nat) is Some,
                spec_tokenise(chars@) == Some(
                    (
                        tokens_view(tokens@) + spec_lex(
                            chars@,
                            i as nat,
                            line as nat,
                            column as nat,
                        ).unwrap().0,
                        errors_view(errors@) + spec_lex(
                            chars@,
                            i as nat,
                            line as nat,
                            column as nat,
                        ).unwrap().1,
                    ),
                ),
            decreases chars.len() - i,
        {
            let (scanned, len) = scan(&chars, i);
            let start_line = line;
            let start_column = column;
            // advance the position over the lexeme
            let mut j = i;
            while j < i + len
                invariant
                    i <= j <= i + len <= chars.len(),
                    chars.len() < usize::MAX,
                    1 <= line <= j + 1,
                    1 <= column <= j + 1,
                    (line as nat, column as nat) == spec_advance(
                        start_line as nat,
                        start_column as nat,
                        chars@.subrange(i as int, j as int),
                    ),
                decreases i + len - j,
            {
                let ghost before = chars@.subrange(i as int, j as int);
                assert(chars@.subrange(i as int, j + 1).drop_last() =~= before);
                if chars[j] == '\n' {
                    line = line + 1;
                    column = 1;
                } else {
                    column = column + 1;
                }
                j = j + 1;
            }
            let ghost rest_tokens = spec_lex(chars@, (i + len) as nat, line as nat, column as nat).unwrap().0;
            let ghost rest_errors = spec_lex(chars@, (i + len) as nat, line as nat, column as nat).unwrap().1;
            match scanned {
                Scan::Skip => {},
                Scan::Error(error_type) => {
                    let ghost before = errors_view(errors@);
                    errors.push(
                        LexerError { index: i, line: start_line, column: start_column, error_type },
                    );
                    proof {
                        assert(errors_view(errors@) =~= before.push(errors@[errors@.len() - 1]@));
                        assert(errors_view(errors@) + rest_errors =~= before + (seq![errors@[errors@.len() - 1]@] + rest_errors));
                    }
                },
                Scan::Emit(token_type) => {
                    let lexeme = text_of(&chars, i, i + len);
                    let ghost before = tokens_view(tokens@);
                    tokens.push(
                        Token { token_type, lexeme, line: start_line, column: start_column },
                    );
                    proof {
                        assert(tokens_view(tokens@) =~= before.push(tokens@[tokens@.len() - 1]@));
                        assert(tokens_view(tokens@) + rest_tokens =~= before + (seq![tokens@[tokens@.len() - 1]@] + rest_tokens));
                    }
                },
            }
            i = i + len;
        }
        let ghost before = tokens_view(tokens@);
        tokens.push(Token { token_type: TokenType::EOF, lexeme: String::new(), line, column });
        proof {
            assert(tokens_view(tokens@) =~= before.push(tokens@[tokens@.len() - 1]@));
            assert(errors_view(errors@) + Seq::<SpecLexerError>::empty() =~= errors_view(errors@));
        }
        LexerResult { tokens, errors }
    }
}

} // verus!

verus! {

/// The text of a lexical error: what was met, then its line and column.
pub open spec fn spec_lexer_error_text(e: SpecLexerError) -> Seq<char> {
    let head = match e.error_type {
        SpecLexerErrorType::UnexpectedToken { lexeme } => "Unexpected token: "@ + lexeme,
        SpecLexerErrorType::IncompleteAssignment => "Incomplete assignment operator"@,
        SpecLexerErrorType::IncompleteAnd => "Incomplete and operator"@,
        SpecLexerErrorType::IncompleteEqual => "Incomplete equal operator"@,
        SpecLexerErrorType::IncompleteOr => "Incomplete or operator"@,
    };
    head + "\n  at line "@ + spec_digits(e.line) + ", column "@ + spec_digits(e.column)
}

impl LexerError {
    /// The error as text: what was met, then its line and column.
    pub fn to_text(&self) -> (r: String)
        ensures
            r@ == spec_lexer_error_text(self@),
    {
        let mut text = match &self.error_type {
            LexerErrorType::UnexpectedToken { lexeme } => {
                let mut t = owned("Unexpected token: ");
                push_text(&mut t, lexeme.as_str());
                t
            },
            LexerErrorType::IncompleteAssignment => owned("Incomplete assignment operator"),
            LexerErrorType::IncompleteAnd => owned("Incomplete and operator"),
            LexerErrorType::IncompleteEqual => owned("Incomplete equal operator"),
            LexerErrorType::IncompleteOr => owned("Incomplete or operator"),
        };
        push_text(&mut text, "\n  at line ");
        push_text(&mut text, usize_text(self.line).as_str());
        push_text(&mut text, ", column ");
        push_text(&mut text, usize_text(self.column).as_str());
        text
    }
}

} // verus!

verus! {

/// Lexing from any position ends with the end-of-input token, and only there.
pub proof fn lemma_lex_ends_with_eof(s: Seq<char>, i: nat, line: nat, column: nat)
    requires
        spec_lex(s, i, line, column) is Some,
    ensures
        ({
            let (tokens, errors) = spec_lex(s, i, line, column).unwrap();
            &&& tokens.len() >= 1
            &&& tokens.last().token_type == SpecTokenType::EOF
            &&& forall|k: int|
                0 <= k < tokens.len() - 1 ==> tokens[k].token_type != SpecTokenType::EOF
        }),
    decreases s.len() - i,
{
    if i < s.len() {
        let (scan, len) = spec_scan(s, i as int).unwrap();
        let lexeme = s.subrange(i as int, (i + len) as int);
        let (l2, c2) = spec_advance(line, column, lexeme);
        lemma_lex_ends_with_eof(s, i + len, l2, c2);
        let (rest, _) = spec_lex(s, i + len, l2, c2).unwrap();
        let (tokens, _) = spec_lex(s, i, line, column).unwrap();
        match scan {
            SpecScan::Emit(t) => {
                assert(t != SpecTokenType::EOF);
                assert(tokens.last() == rest.last());
                assert forall|k: int| 0 <= k < tokens.len() - 1 implies tokens[k].token_type
                    != SpecTokenType::EOF by {
                    if k > 0 {
                        assert(tokens[k] == rest[k - 1]);
                    }
                }
            },
            _ => {},
        }
    }
}

/// The tokens of a text end with the end-of-input token, and only there.
pub proof fn lemma_tokenise_ends_with_eof(s: Seq<char>)
    requires
        spec_tokenise(s) is Some,
    ensures
        ({
            let (tokens, errors) = spec_tokenise(s).unwrap();
            &&& tokens.len() >= 1
            &&& tokens.last().token_type == SpecTokenType::EOF
            &&& forall|k: int|
                0 <= k < tokens.len() - 1 ==> tokens[k].token_type != SpecTokenType::EOF
        }),
{
    lemma_lex_ends_with_eof(s, 0, 1, 1);
}

/// An ASCII letter, lower or upper case.
pub open spec fn spec_ascii_letter(c: char) -> bool {
    ('a' <= c && c <= 'z') || ('A' <= c && c <= 'Z')
}

/// A character of an identifier after its first: an ASCII letter, an ASCII digit or `_`.
pub open spec fn spec_identifier_char(c: char) -> bool {
    spec_ascii_letter(c) || ('0' <= c && c <= '9') || c == '_'
}

/// A word that Lithe reserves.
pub open spec fn spec_reserved(w: Seq<char>) -> bool {
    ||| w == "while"@
    ||| w == "do"@
    ||| w == "print"@
    ||| w == "input"@
    ||| w == "int"@
    ||| w == "return"@
    ||| w == "if"@
    ||| w == "else"@
    ||| w == "break"@
    ||| w == "true"@
    ||| w == "false"@
    ||| w == "fn"@
}

/// The run of identifier characters from `j` to `end`, where the run stops.
proof fn lemma_run_to(s: Seq<char>, j: int, end: int)
    requires
        0 <= j <= end <= s.len(),
        forall|q: int| j <= q < end ==> spec_identifier_char(#[trigger] s[q]),
        end == s.len() || !spec_identifier_char(s[end]),
    ensures
        spec_run(s, j, true) == end - j,
    decreases end - j,
{
    if j < end {
        lemma_run_to(s, j + 1, end);
    }
}

/// Reading no line feed moves along the line by one column per character.
proof fn lemma_advance_in_line(line: nat, column: nat, text: Seq<char>)
    requires
        forall|q: int| 0 <= q < text.len() ==> #[trigger] text[q] != '\n',
    ensures
        spec_advance(line, column, text) == (line, column + text.len()),
    decreases text.len(),
{
    if text.len() > 0 {
        lemma_advance_in_line(line, column, text.drop_last());
    }
}

/// Every ASCII letter, lower or upper case, starts an identifier: a word of letters, digits
/// and `_` that begins with a letter, is not reserved and is not followed by another such
/// character is scanned whole, as one identifier holding the word.
pub proof fn lemma_scan_identifier(s: Seq<char>, i: int, len: int)
    requires
        0 <= i,
        1 <= len,
        i + len <= s.len(),
        spec_ascii_letter(s[i]),
        forall|q: int| i <= q < i + len ==> spec_identifier_char(#[trigger] s[q]),
        i + len == s.len() || !spec_identifier_char(s[i + len]),
        !spec_reserved(s.subrange(i, i + len)),
    ensures
        spec_scan(s, i) == Some(
            (SpecScan::Emit(SpecTokenType::Identifier(s.subrange(i, i + len))), len as nat),
        ),
{
    lemma_run_to(s, i + 1, i + len);
}

/// Tokenising a word of ASCII letters, digits and `_` that begins with a letter, lower or
/// upper case, and is not reserved gives exactly one identifier token holding the whole
/// word, then the end of input, and no error.
pub proof fn lemma_tokenise_identifier(w: Seq<char>)
    requires
        w.len() >= 1,
        spec_ascii_letter(w[0]),
        forall|q: int| 0 <= q < w.len() ==> spec_identifier_char(#[trigger] w[q]),
        !spec_reserved(w),
    ensures
        spec_tokenise(w) == Some(
            (
                seq![
                    SpecToken {
                        token_type: SpecTokenType::Identifier(w),
                        lexeme: w,
                        line: 1,
                        column: 1,
                    },
                    SpecToken {
                        token_type: SpecTokenType::EOF,
                        lexeme: Seq::empty(),
                        line: 1,
                        column: 1 + w.len(),
                    },
                ],
                Seq::<SpecLexerError>::empty(),
            ),
        ),
{
    assert(w.subrange(0, w.len() as int) =~= w);
    lemma_scan_identifier(w, 0, w.len() as int);
    assert forall|q: int| 0 <= q < w.len() implies #[trigger] w[q] != '\n' by {
        assert(spec_identifier_char(w[q]));
    }
    lemma_advance_in_line(1, 1, w);
    let rest = spec_lex(w, w.len(), 1, 1 + w.len());
    assert(spec_tokenise(w) == spec_lex(w, 0, 1, 1));
    assert(seq![
        SpecToken { token_type: SpecTokenType::Identifier(w), lexeme: w, line: 1, column: 1 },
    ] + rest.unwrap().0 =~= seq![
        SpecToken { token_type: SpecTokenType::Identifier(w), lexeme: w, line: 1, column: 1 },
        SpecToken {
            token_type: SpecTokenType::EOF,
            lexeme: Seq::empty(),
            line: 1,
            column: 1 + w.len(),
        },
    ]);
}

/// The value of the decimal text of a natural number is that number.
proof fn lemma_number_of_digits(n: nat)
    ensures
        spec_number(spec_digits(n)) == n,
    decreases n,
{
    if n < 10 {
        assert(spec_digits(n).drop_last() =~= Seq::<char>::empty());
        assert(spec_digit_char(n) as int - '0' as int == n);
        let d = spec_digits(n);
        assert(d.last() == spec_digit_char(n));
        assert(spec_number(d) == spec_number(d.drop_last()) * 10 + (d.last() as int - '0' as int));
    } else {
        lemma_number_of_digits(n / 10);
        assert(spec_digits(n).drop_last() =~= spec_digits(n / 10));
        assert(spec_digit_char(n % 10) as int - '0' as int == n % 10);
        assert((n / 10) * 10 + n % 10 == n);
        let d = spec_digits(n);
        assert(d.last() == spec_digit_char(n % 10));
        assert(spec_number(d) == spec_number(d.drop_last()) * 10 + (d.last() as int - '0' as int));
    }
}

/// The run of digits from `j` to `end`, where the run stops.
proof fn lemma_digit_run_to(s: Seq<char>, j: int, end: int)
    requires
        0 <= j <= end <= s.len(),
        forall|q: int| j <= q < end ==> spec_is_digit(#[trigger] s[q]),
        end == s.len() || !spec_is_digit(s[end]),
    ensures
        spec_run(s, j, false) == end - j,
    decreases end - j,
{
    if j < end {
        lemma_digit_run_to(s, j + 1, end);
    }
}

/// Lexing reads numbers back as they are printed: tokenising the decimal text of a natural
/// number up to `i32::MAX` gives one integer token holding that number, then the end of
/// input, and no error.
pub proof fn lemma_tokenise_number(n: nat)
    requires
        n <= i32::MAX,
    ensures
        spec_tokenise(spec_digits(n)) == Some(
            (
                seq![
                    SpecToken {
                        token_type: SpecTokenType::Integer(n as i32),
                        lexeme: spec_digits(n),
                        line: 1,
                        column: 1,
                    },
                    SpecToken {
                        token_type: SpecTokenType::EOF,
                        lexeme: Seq::empty(),
                        line: 1,
                        column: 1 + spec_digits(n).len(),
                    },
                ],
                Seq::<SpecLexerError>::empty(),
            ),
        ),
{
    let w = spec_digits(n);
    lemma_digits(n, n);
    lemma_number_of_digits(n);
    assert(w.subrange(0, w.len() as int) =~= w);
    lemma_digit_run_to(w, 1, w.len() as int);
    assert(spec_is_digit(w[0]));
    assert(spec_scan(w, 0) == Some(
        (SpecScan::Emit(SpecTokenType::Integer(n as i32)), w.len() as nat),
    ));
    assert forall|q: int| 0 <= q < w.len() implies #[trigger] w[q] != '\n' by {
        assert('0' <= w[q] <= '9');
    }
    lemma_advance_in_line(1, 1, w);
    let rest = spec_lex(w, w.len(), 1, 1 + w.len());
    assert(spec_tokenise(w) == spec_lex(w, 0, 1, 1));
    assert(seq![
        SpecToken {
            token_type: SpecTokenType::Integer(n as i32),
            lexeme: w,
            line: 1,
            column: 1,
        },
    ] + rest.unwrap().0 =~= seq![
        SpecToken { token_type: SpecTokenType::Integer(n as i32), lexeme: w, line: 1, column: 1 },
        SpecToken {
            token_type: SpecTokenType::EOF,
            lexeme: Seq::empty(),
            line: 1,
            column: 1 + w.len(),
        },
    ]);
}

} // verus!
