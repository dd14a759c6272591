//! The token data model: token kinds, literal values, tokens, lexical
//! errors, and the reserved-word lookup.

use vstd::prelude::*;

verus! {

/// The closed set of token categories the scanner can produce.
#[derive(Debug, Clone, Copy, PartialEq, Eq, Structural)]
pub enum TokenType {
    // Single-character tokens
    LeftParen,
    RightParen,
    LeftBrace,
    RightBrace,
    Comma,
    Dot,
    Minus,
    Plus,
    Semicolon,
    Slash,
    Star,
    // One or two character tokens
    Bang,
    BangEqual,
    Equal,
    EqualEqual,
    Greater,
    GreaterEqual,
    Less,
    LessEqual,
    PlusEqual,
    MinusEqual,
    StarEqual,
    SlashEqual,
    // Literals
    Identifier,
    String,
    Number,
    Boolean,
    // Keywords
    Else,
    True,
    False,
    Fun,
    For,
    If,
    Null,
    Print,
    Mut,
    Const,
    While,
    EOF,
}

/// The interpreted value carried by a literal-bearing token.
///
/// A number literal keeps the exact digit text of its lexeme; the
/// digits-and-one-dot shape guarantees the text denotes a decimal
/// numeral, and a consumer may convert it to any numeric type it likes.
#[derive(Debug)]
pub enum Literal {
    String(String),
    Number(String),
    Boolean(bool),
    Null,
}

/// The mathematical value of a `Literal`.
pub enum SpecLiteral {
    Str(Seq<char>),
    Num(Seq<char>),
    Bool(bool),
    Null,
}

impl View for Literal {
    type V = SpecLiteral;

    open spec fn view(&self) -> SpecLiteral {
        match self {
            Literal::String(s) => SpecLiteral::Str(s@),
            Literal::Number(s) => SpecLiteral::Num(s@),
            Literal::Boolean(b) => SpecLiteral::Bool(*b),
            Literal::Null => SpecLiteral::Null,
        }
    }
}

impl PartialEq for Literal {
    fn eq(&self, other: &Literal) -> (r: bool) {
        match (self, other) {
            (Literal::String(a), Literal::String(b)) => a.eq(b),
            (Literal::Number(a), Literal::Number(b)) => a.eq(b),
            (Literal::Boolean(a), Literal::Boolean(b)) => *a == *b,
            (Literal::Null, Literal::Null) => true,
            _ => false,
        }
    }
}

impl vstd::std_specs::cmp::PartialEqSpecImpl for Literal {
    open spec fn obeys_eq_spec() -> bool {
        true
    }

    open spec fn eq_spec(&self, other: &Literal) -> bool {
        self@ == other@
    }
}

/// One classified unit of source text.
///
/// `lexeme` is the text consumed while recognizing the token (for a
/// string literal the quotes are included and an escaping backslash is
/// dropped); `literal` is present only for literal-bearing kinds;
/// `line` is the 1-based line on which the lexeme starts.
#[derive(Debug)]
pub struct Token {
    pub token_type: TokenType,
    pub lexeme: String,
    pub literal: Option<Literal>,
    pub line: u64,
}

/// The mathematical value of a `Token`.
pub struct SpecToken {
    pub token_type: TokenType,
    pub lexeme: Seq<char>,
    pub literal: Option<SpecLiteral>,
    pub line: int,
}

impl View for Token {
    type V = SpecToken;

    open spec fn view(&self) -> SpecToken {
        SpecToken {
            token_type: self.token_type,
            lexeme: self.lexeme@,
            literal: match self.literal {
                Some(l) => Some(l@),
                None => None,
            },
            line: self.line as int,
        }
    }
}

impl Default for Token {
    /// The default token is the terminal end-of-input marker.
    fn default() -> (t: Token)
        ensures
            t@ == (SpecToken {
                token_type: TokenType::EOF,
                lexeme: Seq::<char>::empty(),
                literal: None,
                line: 0,
            }),
    {
        let t = Token {
            token_type: TokenType::EOF,
            lexeme: String::new(),
            literal: None,
            line: 0,
        };
        proof {
            assert(t@.lexeme =~= Seq::<char>::empty());
        }
        t
    }
}

/// The ways a lexeme can fail to scan.
#[derive(Debug, Clone, Copy, PartialEq, Eq, Structural)]
pub enum LexicalErrorKind {
    UnexpectedCharacter,
    UnterminatedString,
    /// Defensive: a numeric lexeme that does not denote a number.  The
    /// scanner only ever builds numeric lexemes of digits and at most
    /// one interior dot, so it never reports this kind itself.
    InvalidNumber,
}

/// A recoverable lexical error: the kind, the 1-based line on which it
/// was noticed, and the partial lexeme consumed up to that point.
#[derive(Debug)]
pub struct LexicalError {
    pub kind: LexicalErrorKind,
    pub line: u64,
    pub lexeme: String,
}

/// The mathematical value of a `LexicalError`.
pub struct SpecError {
    pub kind: LexicalErrorKind,
    pub line: int,
    pub lexeme: Seq<char>,
}

impl View for LexicalError {
    type V = SpecError;

    open spec fn view(&self) -> SpecError {
        SpecError { kind: self.kind, line: self.line as int, lexeme: self.lexeme@ }
    }
}

impl LexicalError {
    /// The short human-readable message for this error's kind.
    pub fn message(&self) -> (m: String)
        ensures
            m@ == spec_message(self.kind),
    {
        match self.kind {
            LexicalErrorKind::UnexpectedCharacter => "unexpected character".to_owned(),
            LexicalErrorKind::UnterminatedString => "unterminated string".to_owned(),
            LexicalErrorKind::InvalidNumber => "invalid number".to_owned(),
        }
    }
}

/// The message text attached to each error kind.
pub open spec fn spec_message(kind: LexicalErrorKind) -> Seq<char> {
    match kind {
        LexicalErrorKind::UnexpectedCharacter => "unexpected character"@,
        LexicalErrorKind::UnterminatedString => "unterminated string"@,
        LexicalErrorKind::InvalidNumber => "invalid number"@,
    }
}

/// The reserved-word table: the token kind for each keyword spelling,
/// `None` for every other spelling.
pub open spec fn spec_reserved(s: Seq<char>) -> Option<TokenType> {
    if s == "else"@ {
        Some(TokenType::Else)
    } else if s == "fun"@ {
        Some(TokenType::Fun)
    } else if s == "for"@ {
        Some(TokenType::For)
    } else if s == "if"@ {
        Some(TokenType::If)
    } else if s == "null"@ {
        Some(TokenType::Null)
    } else if s == "print"@ {
        Some(TokenType::Print)
    } else if s == "true"@ {
        Some(TokenType::True)
    } else if s == "false"@ {
        Some(TokenType::False)
    } else if s == "mut"@ {
        Some(TokenType::Mut)
    } else if s == "const"@ {
        Some(TokenType::Const)
    } else if s == "while"@ {
        Some(TokenType::While)
    } else {
        None
    }
}

/// Whether two string slices spell the same characters.
fn str_eq(a: &str, b: &str) -> (r: bool)
    ensures
        r == (a@ == b@),
{
    let sa = a.to_owned();
    let sb = b.to_owned();
    sa == sb
}

/// Returns the matching token kind if `keyword` is a reserved word.
pub fn reserved(keyword: &str) -> (t: Option<TokenType>)
    ensures
        t == spec_reserved(keyword@),
{
    if str_eq(keyword, "else") {
        Some(TokenType::Else)
    } else if str_eq(keyword, "fun") {
        Some(TokenType::Fun)
    } else if str_eq(keyword, "for") {
        Some(TokenType::For)
    } else if str_eq(keyword, "if") {
        Some(TokenType::If)
    } else if str_eq(keyword, "null") {
        Some(TokenType::Null)
    } else if str_eq(keyword, "print") {
        Some(TokenType::Print)
    } else if str_eq(keyword, "true") {
        Some(TokenType::True)
    } else if str_eq(keyword, "false") {
        Some(TokenType::False)
    } else if str_eq(keyword, "mut") {
        Some(TokenType::Mut)
    } else if str_eq(keyword, "const") {
        Some(TokenType::Const)
    } else if str_eq(keyword, "while") {
        Some(TokenType::While)
    } else {
        None
    }
}

} // verus!
