//! The scanner: a forward-only cursor over the source characters that
//! produces one token or lexical error per step.

use crate::token::LexicalError;
use crate::token::LexicalErrorKind;
use crate::token::Literal;
use crate::token::SpecError;
use crate::token::SpecLiteral;
use crate::token::SpecToken;
use crate::token::Token;
use crate::token::TokenType;
use crate::token::reserved;
use crate::token::spec_reserved;
use vstd::assert_seqs_equal;
use vstd::prelude::*;
use vstd::string::StrSliceExecFns;

verus! {

/// A decimal digit.
pub open spec fn is_digit_char(c: char) -> bool {
    '0' <= c && c <= '9'
}

/// An ASCII letter.
pub open spec fn is_alpha_char(c: char) -> bool {
    ('a' <= c && c <= 'z') || ('A' <= c && c <= 'Z')
}

/// A character that may occur in an identifier: letter, digit or
/// underscore.
pub open spec fn is_word_char(c: char) -> bool {
    is_digit_char(c) || is_alpha_char(c) || c == '_'
}

/// ASCII whitespace other than the newline, which the scanner treats
/// separately because it advances the line counter.
pub open spec fn is_space_char(c: char) -> bool {
    c == ' ' || c == '\t' || c == '\r' || c == '\u{000B}' || c == '\u{000C}'
}

/// Checks whether a character may continue an identifier.
pub fn is_alphanumeric(c: char) -> (r: bool)
    ensures
        r == is_word_char(c),
{
    ('0' <= c && c <= '9') || ('a' <= c && c <= 'z') || ('A' <= c && c <= 'Z') || c == '_'
}

/// One of the seven single-character punctuation marks.
pub open spec fn is_punct_char(c: char) -> bool {
    c == '(' || c == ')' || c == '{' || c == '}' || c == ',' || c == '.' || c == ';'
}

/// The token kind of a single-character punctuation mark.
pub open spec fn punct_kind(c: char) -> TokenType {
    if c == '(' {
        TokenType::LeftParen
    } else if c == ')' {
        TokenType::RightParen
    } else if c == '{' {
        TokenType::LeftBrace
    } else if c == '}' {
        TokenType::RightBrace
    } else if c == ',' {
        TokenType::Comma
    } else if c == '.' {
        TokenType::Dot
    } else {
        TokenType::Semicolon
    }
}

/// An operator that pairs with an optional trailing `=`; the slash is
/// handled separately because it may also open a comment.
pub open spec fn is_op_char(c: char) -> bool {
    c == '-' || c == '+' || c == '!' || c == '=' || c == '<' || c == '>' || c == '*'
}

/// The token kind of an operator, in its one-character form or, when
/// `two` holds, its `=`-suffixed two-character form.
pub open spec fn op_kind(c: char, two: bool) -> TokenType {
    if c == '-' {
        if two {
            TokenType::MinusEqual
        } else {
            TokenType::Minus
        }
    } else if c == '+' {
        if two {
            TokenType::PlusEqual
        } else {
            TokenType::Plus
        }
    } else if c == '!' {
        if two {
            TokenType::BangEqual
        } else {
            TokenType::Bang
        }
    } else if c == '=' {
        if two {
            TokenType::EqualEqual
        } else {
            TokenType::Equal
        }
    } else if c == '<' {
        if two {
            TokenType::LessEqual
        } else {
            TokenType::Less
        }
    } else if c == '>' {
        if two {
            TokenType::GreaterEqual
        } else {
            TokenType::Greater
        }
    } else if c == '*' {
        if two {
            TokenType::StarEqual
        } else {
            TokenType::Star
        }
    } else {
        if two {
            TokenType::SlashEqual
        } else {
            TokenType::Slash
        }
    }
}

/// The character `i` positions into the source, or the NUL sentinel
/// when `i` lies outside it.
pub open spec fn char_at(src: Seq<char>, i: int) -> char {
    if 0 <= i < src.len() {
        src[i]
    } else {
        '\0'
    }
}

/// The first position at or after `pos` whose character is in `stops`,
/// is NUL, or is the end of the source.
pub open spec fn scan_until(src: Seq<char>, pos: int, stops: Seq<char>) -> int
    decreases src.len() - pos,
{
    if pos < 0 || pos >= src.len() {
        src.len() as int
    } else if stops.contains(src[pos]) || src[pos] == '\0' {
        pos
    } else {
        scan_until(src, pos + 1, stops)
    }
}

/// The first position at or after `pos` that does not hold a decimal
/// digit.
pub open spec fn skip_digits(src: Seq<char>, pos: int) -> int
    decreases src.len() - pos,
{
    if pos < 0 || pos >= src.len() {
        src.len() as int
    } else if !is_digit_char(src[pos]) {
        pos
    } else {
        skip_digits(src, pos + 1)
    }
}

/// The first position at or after `pos` that does not hold an
/// identifier character.
pub open spec fn skip_word(src: Seq<char>, pos: int) -> int
    decreases src.len() - pos,
{
    if pos < 0 || pos >= src.len() {
        src.len() as int
    } else if !is_word_char(src[pos]) {
        pos
    } else {
        skip_word(src, pos + 1)
    }
}

/// Where a block comment body ends and how many lines it crossed.
#[verifier::ext_equal]
pub struct BlockEnd {
    pub pos: int,
    pub line: int,
}

/// Scans a block comment body starting at `pos` (just after the
/// opening `/*`): the comment ends right after the first `*/`, or at a
/// NUL, or silently at the end of the source; each newline inside it
/// advances the line counter.
pub open spec fn skip_block(src: Seq<char>, pos: int, line: int) -> BlockEnd
    decreases src.len() - pos,
{
    if pos < 0 || pos >= src.len() {
        BlockEnd { pos: src.len() as int, line }
    } else if src[pos] == '\0' {
        BlockEnd { pos, line }
    } else if src[pos] == '*' && char_at(src, pos + 1) == '/' {
        BlockEnd { pos: pos + 2, line }
    } else {
        skip_block(src, pos + 1, if src[pos] == '\n' { line + 1 } else { line })
    }
}

/// The outcome of scanning a string literal body.
#[verifier::ext_equal]
pub struct StrScan {
    pub ok: bool,
    pub lex: Seq<char>,
    pub pos: int,
    pub line: int,
}

/// Scans a string literal body starting at `pos` (just after the
/// opening quote), with `lex` the lexeme gathered so far.  A quote
/// closes the string unless the source character right before it is a
/// backslash, in which case the backslash is dropped from the lexeme
/// and the quote kept as content; a newline is content and advances the
/// line counter; a NUL or the end of the source leaves the string
/// unterminated.
pub open spec fn scan_string(src: Seq<char>, pos: int, line: int, lex: Seq<char>) -> StrScan
    decreases src.len() - pos,
{
    if pos < 0 || pos >= src.len() || src[pos] == '\0' {
        StrScan { ok: false, lex, pos, line }
    } else if src[pos] == '"' {
        if char_at(src, pos - 1) == '\\' {
            scan_string(src, pos + 1, line, lex.take(lex.len() - 1).push('"'))
        } else {
            StrScan { ok: true, lex: lex.push('"'), pos: pos + 1, line }
        }
    } else if src[pos] == '\n' {
        scan_string(src, pos + 1, line + 1, lex.push('\n'))
    } else {
        scan_string(src, pos + 1, line, lex.push(src[pos]))
    }
}

/// The literal value attached to a reserved word, if any.
pub open spec fn keyword_literal(t: TokenType) -> Option<SpecLiteral> {
    match t {
        TokenType::Null => Some(SpecLiteral::Null),
        TokenType::True => Some(SpecLiteral::Bool(true)),
        TokenType::False => Some(SpecLiteral::Bool(false)),
        _ => None,
    }
}

/// What one scan step produces: a token or a recoverable error.
#[verifier::ext_equal]
pub enum ScanItem {
    Tok(SpecToken),
    Fail(SpecError),
}

/// One scan step: the item produced, the position and line after it,
/// and whether the end of the source was reached and reported.
#[verifier::ext_equal]
pub struct SpecStep {
    pub item: ScanItem,
    pub pos: int,
    pub line: int,
    pub eof: bool,
}

/// `scan_until` never moves backwards nor past the end.
pub proof fn lemma_scan_until_bounds(src: Seq<char>, pos: int, stops: Seq<char>)
    requires
        0 <= pos <= src.len(),
    ensures
        pos <= scan_until(src, pos, stops) <= src.len(),
    decreases src.len() - pos,
{
    if pos < src.len() && !(stops.contains(src[pos]) || src[pos] == '\0') {
        lemma_scan_until_bounds(src, pos + 1, stops);
    }
}

/// `skip_block` never moves backwards nor past the end.
pub proof fn lemma_skip_block_bounds(src: Seq<char>, pos: int, line: int)
    requires
        0 <= pos <= src.len(),
    ensures
        pos <= skip_block(src, pos, line).pos <= src.len(),
    decreases src.len() - pos,
{
    if pos < src.len() && src[pos] != '\0' && !(src[pos] == '*' && char_at(src, pos + 1) == '/') {
        lemma_skip_block_bounds(src, pos + 1, if src[pos] == '\n' { line + 1 } else { line });
    }
}

/// One step of the scanner, as a function of the source, the current
/// position and the current line: the next token or error, together
/// with the state after producing it.  Whitespace and comments before
/// the next lexical unit are skipped here, so one step always yields an
/// item.
pub open spec fn spec_next(src: Seq<char>, pos: int, line: int) -> SpecStep
    decreases src.len() - pos
        via spec_next_decreases
{
    if pos < 0 || pos >= src.len() {
        SpecStep {
            item: ScanItem::Tok(SpecToken {
                token_type: TokenType::EOF,
                lexeme: Seq::empty(),
                literal: None,
                line,
            }),
            pos,
            line,
            eof: true,
        }
    } else {
        let c = src[pos];
        if is_punct_char(c) {
            SpecStep {
                item: ScanItem::Tok(SpecToken {
                    token_type: punct_kind(c),
                    lexeme: seq![c],
                    literal: None,
                    line,
                }),
                pos: pos + 1,
                line,
                eof: false,
            }
        } else if is_op_char(c) {
            if char_at(src, pos + 1) == '=' {
                SpecStep {
                    item: ScanItem::Tok(SpecToken {
                        token_type: op_kind(c, true),
                        lexeme: seq![c, '='],
                        literal: None,
                        line,
                    }),
                    pos: pos + 2,
                    line,
                    eof: false,
                }
            } else {
                SpecStep {
                    item: ScanItem::Tok(SpecToken {
                        token_type: op_kind(c, false),
                        lexeme: seq![c],
                        literal: None,
                        line,
                    }),
                    pos: pos + 1,
                    line,
                    eof: false,
                }
            }
        } else if c == '/' {
            if char_at(src, pos + 1) == '/' {
                spec_next(src, scan_until(src, pos + 2, seq!['\n']), line)
            } else if char_at(src, pos + 1) == '*' {
                let b = skip_block(src, pos + 2, line);
                spec_next(src, b.pos, b.line)
            } else if char_at(src, pos + 1) == '=' {
                SpecStep {
                    item: ScanItem::Tok(SpecToken {
                        token_type: TokenType::SlashEqual,
                        lexeme: seq!['/', '='],
                        literal: None,
                        line,
                    }),
                    pos: pos + 2,
                    line,
                    eof: false,
                }
            } else {
                SpecStep {
                    item: ScanItem::Tok(SpecToken {
                        token_type: TokenType::Slash,
                        lexeme: seq!['/'],
                        literal: None,
                        line,
                    }),
                    pos: pos + 1,
                    line,
                    eof: false,
                }
            }
        } else if c == '\n' {
            spec_next(src, pos + 1, line + 1)
        } else if is_space_char(c) {
            spec_next(src, pos + 1, line)
        } else if c == '"' {
            let sr = scan_string(src, pos + 1, line, seq!['"']);
            if sr.ok {
                SpecStep {
                    item: ScanItem::Tok(SpecToken {
                        token_type: TokenType::String,
                        lexeme: sr.lex,
                        literal: Some(SpecLiteral::Str(sr.lex.subrange(1, sr.lex.len() - 1))),
                        line,
                    }),
                    pos: sr.pos,
                    line: sr.line,
                    eof: false,
                }
            } else {
                SpecStep {
                    item: ScanItem::Fail(SpecError {
                        kind: LexicalErrorKind::UnterminatedString,
                        line: sr.line,
                        lexeme: sr.lex,
                    }),
                    pos: sr.pos,
                    line: sr.line,
                    eof: false,
                }
            }
        } else if is_digit_char(c) {
            let d = skip_digits(src, pos + 1);
            let end = if char_at(src, d) == '.' && is_digit_char(char_at(src, d + 1)) {
                skip_digits(src, d + 2)
            } else {
                d
            };
            let lex = src.subrange(pos, end);
            SpecStep {
                item: ScanItem::Tok(SpecToken {
                    token_type: TokenType::Number,
                    lexeme: lex,
                    literal: Some(SpecLiteral::Num(lex)),
                    line,
                }),
                pos: end,
                line,
                eof: false,
            }
        } else if is_word_char(c) {
            let end = skip_word(src, pos + 1);
            let lex = src.subrange(pos, end);
            let kind = match spec_reserved(lex) {
                Some(t) => t,
                None => TokenType::Identifier,
            };
            SpecStep {
                item: ScanItem::Tok(SpecToken {
                    token_type: kind,
                    lexeme: lex,
                    literal: keyword_literal(kind),
                    line,
                }),
                pos: end,
                line,
                eof: false,
            }
        } else {
            SpecStep {
                item: ScanItem::Fail(SpecError {
                    kind: LexicalErrorKind::UnexpectedCharacter,
                    line,
                    lexeme: seq![c],
                }),
                pos: pos + 1,
                line,
                eof: false,
            }
        }
    }
}

#[via_fn]
proof fn spec_next_decreases(src: Seq<char>, pos: int, line: int) {
    if 0 <= pos < src.len() && src[pos] == '/' {
        if char_at(src, pos + 1) == '/' {
            lemma_scan_until_bounds(src, pos + 2, seq!['\n']);
        } else if char_at(src, pos + 1) == '*' {
            lemma_skip_block_bounds(src, pos + 2, line);
        }
    }
}

/// The abstract state of a `Scanner`: the source characters, the
/// cursor position, the current 1-based line, whether the end of the
/// source has been reported, and the in-progress lexeme buffer.
#[verifier::ext_equal]
pub struct ScannerModel {
    pub src: Seq<char>,
    pub pos: int,
    pub line: int,
    pub eof: bool,
    pub lexeme: Seq<char>,
}

/// Converts a character buffer into a `String` of the same characters.
///
/// Relies on `String`'s `FromIterator<char>` impl: collecting an
/// iterator of characters yields a string holding exactly those
/// characters in order.
#[verifier::external_body]
fn chars_to_string(v: &Vec<char>) -> (s: String)
    ensures
        s@ == v@,
{
    v.iter().collect()
}

/// A forward-only scanner over an in-memory character sequence.  Each
/// call of `next` yields the next token or lexical error; errors are
/// recoverable and scanning resumes at the following character.
pub struct Scanner {
    src: Vec<char>,
    pos: usize,
    lexeme: Vec<char>,
    line: u64,
    eof: bool,
}

impl View for Scanner {
    type V = ScannerModel;

    closed spec fn view(&self) -> ScannerModel {
        ScannerModel {
            src: self.src@,
            pos: self.pos as int,
            line: self.line as int,
            eof: self.eof,
            lexeme: self.lexeme@,
        }
    }
}

impl Scanner {
    /// The scanner's invariant: the cursor stays inside the source and
    /// the line counter never exceeds one more than the number of
    /// characters consumed.
    pub open spec fn wf(&self) -> bool {
        &&& 0 <= self@.pos <= self@.src.len()
        &&& self@.src.len() < usize::MAX as int
        &&& 1 <= self@.line <= 1 + self@.pos
    }

    /// Creates a new scanner over the given source characters, at the
    /// start of line 1.
    pub fn new(src: Vec<char>) -> (s: Scanner)
        requires
            src@.len() < usize::MAX as int,
        ensures
            s.wf(),
            s@ == (ScannerModel {
                src: src@,
                pos: 0,
                line: 1,
                eof: false,
                lexeme: Seq::<char>::empty(),
            }),
    {
        let s = Scanner { src, pos: 0, lexeme: Vec::new(), line: 1, eof: false };
        proof {
            assert(s@ =~= (ScannerModel {
                src: s@.src,
                pos: 0,
                line: 1,
                eof: false,
                lexeme: Seq::<char>::empty(),
            }));
        }
        s
    }

    /// Consumes the next character and appends it to the lexeme
    /// buffer.  At the end of the source it returns the NUL sentinel
    /// exactly once and marks the scanner exhausted; afterwards it
    /// returns `None` forever.
    pub fn advance(&mut self) -> (r: Option<char>)
        requires
            old(self).wf(),
        ensures
            final(self).wf(),
            old(self)@.eof ==> r is None && final(self)@ == old(self)@,
            !old(self)@.eof && old(self)@.pos < old(self)@.src.len() ==> {
                &&& r == Some(old(self)@.src[old(self)@.pos])
                &&& final(self)@ == (ScannerModel {
                    pos: old(self)@.pos + 1,
                    lexeme: old(self)@.lexeme.push(old(self)@.src[old(self)@.pos]),
                    ..old(self)@
                })
            },
            !old(self)@.eof && old(self)@.pos == old(self)@.src.len() ==> {
                &&& r == Some('\0')
                &&& final(self)@ == (ScannerModel { eof: true, ..old(self)@ })
            },
    {
        if self.eof {
            return None;
        }
        if self.pos < self.src.len() {
            let c = self.src[self.pos];
            self.pos = self.pos + 1;
            self.lexeme.push(c);
            proof {
                assert(self@ =~= (ScannerModel {
                    pos: old(self)@.pos + 1,
                    lexeme: old(self)@.lexeme.push(old(self)@.src[old(self)@.pos]),
                    ..old(self)@
                }));
            }
            Some(c)
        } else {
            self.eof = true;
            proof {
                assert(self@ =~= (ScannerModel { eof: true, ..old(self)@ }));
            }
            Some('\0')
        }
    }

    /// Returns the character `n` positions ahead (1 = the next
    /// character) without consuming anything; the NUL sentinel stands
    /// for positions past the end.
    pub fn next_char(&self, n: usize) -> (c: char)
        requires
            self.wf(),
            1 <= n <= 2,
        ensures
            c == char_at(self@.src, self@.pos + n - 1),
    {
        let idx = self.pos + (n - 1);
        if idx < self.src.len() {
            self.src[idx]
        } else {
            '\0'
        }
    }

    /// The next unconsumed character.
    pub fn peek(&self) -> (c: char)
        requires
            self.wf(),
        ensures
            c == char_at(self@.src, self@.pos),
    {
        self.next_char(1)
    }

    /// The character after the next one.
    pub fn peek_next(&self) -> (c: char)
        requires
            self.wf(),
        ensures
            c == char_at(self@.src, self@.pos + 1),
    {
        self.next_char(2)
    }

    /// Consumes the next character exactly when it equals `c`.
    pub fn match_advance(&mut self, c: char) -> (r: bool)
        requires
            old(self).wf(),
            !old(self)@.eof,
            c != '\0',
        ensures
            final(self).wf(),
            r == (char_at(old(self)@.src, old(self)@.pos) == c),
            r ==> final(self)@ == (ScannerModel {
                pos: old(self)@.pos + 1,
                lexeme: old(self)@.lexeme.push(c),
                ..old(self)@
            }),
            !r ==> final(self)@ == old(self)@,
    {
        if self.peek() == c {
            let _ = self.advance();
            true
        } else {
            false
        }
    }

    /// Consumes characters until one in `stops`, a NUL, or the end of
    /// the source is next, and returns the last character consumed (or
    /// NUL if none was).
    pub fn advance_until(&mut self, stops: &Vec<char>) -> (last: char)
        requires
            old(self).wf(),
            !old(self)@.eof,
        ensures
            final(self).wf(),
            old(self)@.pos <= final(self)@.pos,
            final(self)@ == (ScannerModel {
                pos: scan_until(old(self)@.src, old(self)@.pos, stops@),
                lexeme: old(self)@.lexeme + old(self)@.src.subrange(old(self)@.pos, final(self)@.pos),
                ..old(self)@
            }),
            final(self)@.pos > old(self)@.pos ==> last == old(self)@.src[final(self)@.pos - 1],
            final(self)@.pos == old(self)@.pos ==> last == '\0',
    {
        let ghost pre = self@;
        let mut last: char = '\0';
        proof {
            assert(pre.lexeme + pre.src.subrange(pre.pos, pre.pos) =~= pre.lexeme);
        }
        loop
            invariant
                self.wf(),
                !self@.eof,
                self@.src == pre.src,
                self@.line == pre.line,
                pre.lexeme.len() <= self@.lexeme.len(),
                0 <= pre.pos <= self@.pos,
                scan_until(pre.src, pre.pos, stops@) == scan_until(self@.src, self@.pos, stops@),
                self@.lexeme == pre.lexeme + pre.src.subrange(pre.pos, self@.pos),
                self@.pos > pre.pos ==> last == pre.src[self@.pos - 1],
                self@.pos == pre.pos ==> last == '\0',
            ensures
                self.wf(),
                !self@.eof,
                self@.src == pre.src,
                self@.line == pre.line,
                pre.pos <= self@.pos,
                self@.pos == scan_until(pre.src, pre.pos, stops@),
                self@.lexeme == pre.lexeme + pre.src.subrange(pre.pos, self@.pos),
                self@.pos > pre.pos ==> last == pre.src[self@.pos - 1],
                self@.pos == pre.pos ==> last == '\0',
            decreases self@.src.len() - self@.pos,
        {
            let c = self.peek();
            if c == '\0' || contains_char(stops, c) {
                proof {
                    assert(scan_until(self@.src, self@.pos, stops@) == self@.pos);
                }
                break;
            }
            proof {
                assert(self@.pos < self@.src.len());
            }
            last = c;
            let ghost mid = self@;
            let _ = self.advance();
            proof {
                assert(self@.pos == mid.pos + 1);
                assert(self@.lexeme == mid.lexeme.push(mid.src[mid.pos]));
                assert_seqs_equal!(
                    pre.src.subrange(pre.pos, mid.pos + 1)
                        == pre.src.subrange(pre.pos, mid.pos).push(pre.src[mid.pos])
                );
                assert(self@.lexeme =~= pre.lexeme + pre.src.subrange(pre.pos, self@.pos));
            }
        }
        proof {
            assert(self@ =~= (ScannerModel {
                pos: scan_until(pre.src, pre.pos, stops@),
                lexeme: pre.lexeme + pre.src.subrange(pre.pos, self@.pos),
                ..pre
            }));
        }
        last
    }

    /// Wraps the current lexeme and line into a token of the given
    /// kind carrying the given literal value.
    fn literal_token(&self, token_type: TokenType, literal: Option<Literal>) -> (r: Option<
        Result<Token, LexicalError>,
    >)
        ensures
            r matches Some(Ok(t)) && t@ == (SpecToken {
                token_type,
                lexeme: self@.lexeme,
                literal: match literal {
                    Some(l) => Some(l@),
                    None => None,
                },
                line: self@.line,
            }),
    {
        let t = Token {
            token_type,
            lexeme: chars_to_string(&self.lexeme),
            literal,
            line: self.line,
        };
        Some(Ok(t))
    }

    /// Wraps the current lexeme and line into a token without a
    /// literal value.
    fn static_token(&self, token_type: TokenType) -> (r: Option<Result<Token, LexicalError>>)
        ensures
            r matches Some(Ok(t)) && t@ == (SpecToken {
                token_type,
                lexeme: self@.lexeme,
                literal: None,
                line: self@.line,
            }),
    {
        self.literal_token(token_type, None)
    }

    /// Emits the token kind `m` after consuming `c` when `c` is next,
    /// and the kind `u` without consuming anything otherwise.
    fn match_static_token(&mut self, c: char, m: TokenType, u: TokenType) -> (r: Option<
        Result<Token, LexicalError>,
    >)
        requires
            old(self).wf(),
            !old(self)@.eof,
            c != '\0',
        ensures
            final(self).wf(),
            ({
                let matched = char_at(old(self)@.src, old(self)@.pos) == c;
                let tt = if matched { m } else { u };
                let lex = if matched {
                    old(self)@.lexeme.push(c)
                } else {
                    old(self)@.lexeme
                };
                let p = if matched { old(self)@.pos + 1 } else { old(self)@.pos };
                &&& final(self)@ == (ScannerModel { pos: p, lexeme: lex, ..old(self)@ })
                &&& r matches Some(Ok(t)) && t@ == (SpecToken {
                    token_type: tt,
                    lexeme: lex,
                    literal: None,
                    line: old(self)@.line,
                })
            }),
    {
        if self.match_advance(c) {
            self.static_token(m)
        } else {
            self.static_token(u)
        }
    }

    /// Wraps the current line and partial lexeme into a lexical error
    /// of the given kind.
    fn err(&self, kind: LexicalErrorKind) -> (r: Option<Result<Token, LexicalError>>)
        ensures
            r matches Some(Err(e)) && e@ == (SpecError {
                kind,
                line: self@.line,
                lexeme: self@.lexeme,
            }),
    {
        Some(Err(LexicalError { kind, line: self.line, lexeme: chars_to_string(&self.lexeme) }))
    }

    /// Skips a line comment body: everything up to, but not including,
    /// the next newline or the end of the source, and discards the
    /// lexeme.
    fn line_comment(&mut self)
        requires
            old(self).wf(),
            !old(self)@.eof,
        ensures
            final(self).wf(),
            old(self)@.pos <= final(self)@.pos,
            final(self)@ == (ScannerModel {
                pos: scan_until(old(self)@.src, old(self)@.pos, seq!['\n']),
                lexeme: Seq::<char>::empty(),
                ..old(self)@
            }),
    {
        let mut stops: Vec<char> = Vec::new();
        stops.push('\n');
        proof {
            assert(stops@ =~= seq!['\n']);
        }
        let _ = self.advance_until(&stops);
        self.lexeme.clear();
        proof {
            assert(self@ =~= (ScannerModel {
                pos: scan_until(old(self)@.src, old(self)@.pos, seq!['\n']),
                lexeme: Seq::<char>::empty(),
                ..old(self)@
            }));
        }
    }

    /// Skips a block comment body: everything through the first `*/`,
    /// or silently to the end of the source when the comment is
    /// unterminated, counting the newlines crossed; the lexeme is
    /// discarded.
    fn block_comment(&mut self)
        requires
            old(self).wf(),
            !old(self)@.eof,
        ensures
            final(self).wf(),
            old(self)@.pos <= final(self)@.pos,
            ({
                let b = skip_block(old(self)@.src, old(self)@.pos, old(self)@.line);
                final(self)@ == (ScannerModel {
                    pos: b.pos,
                    line: b.line,
                    lexeme: Seq::<char>::empty(),
                    ..old(self)@
                })
            }),
    {
        let ghost pre = self@;
        loop
            invariant_except_break
                skip_block(pre.src, pre.pos, pre.line) == skip_block(
                    self@.src,
                    self@.pos,
                    self@.line,
                ),
            invariant
                self.wf(),
                !self@.eof,
                self@.src == pre.src,
                0 <= pre.pos <= self@.pos,
            ensures
                self.wf(),
                !self@.eof,
                self@.src == pre.src,
                pre.pos <= self@.pos,
                skip_block(pre.src, pre.pos, pre.line) == (BlockEnd {
                    pos: self@.pos,
                    line: self@.line,
                }),
            decreases self@.src.len() - self@.pos,
        {
            let c = self.peek();
            if c == '\0' {
                break;
            }
            if c == '*' && self.peek_next() == '/' {
                let _ = self.advance();
                let _ = self.advance();
                break;
            }
            let _ = self.advance();
            if c == '\n' {
                proof {
                    assert(self@.line <= self@.src.len());
                }
                self.line = self.line + 1;
            }
        }
        self.lexeme.clear();
        proof {
            let b = skip_block(pre.src, pre.pos, pre.line);
            assert(self@ =~= (ScannerModel {
                pos: b.pos,
                line: b.line,
                lexeme: Seq::<char>::empty(),
                ..pre
            }));
        }
    }

    /// Consumes the maximal run of decimal digits that starts at the
    /// cursor.
    fn digit_run(&mut self)
        requires
            old(self).wf(),
            !old(self)@.eof,
        ensures
            final(self).wf(),
            !final(self)@.eof,
            old(self)@.pos <= final(self)@.pos,
            final(self)@ == (ScannerModel {
                pos: skip_digits(old(self)@.src, old(self)@.pos),
                lexeme: old(self)@.lexeme + old(self)@.src.subrange(
                    old(self)@.pos,
                    final(self)@.pos,
                ),
                ..old(self)@
            }),
    {
        let ghost pre = self@;
        proof {
            assert(pre.lexeme + pre.src.subrange(pre.pos, pre.pos) =~= pre.lexeme);
        }
        loop
            invariant
                self.wf(),
                !self@.eof,
                self@.src == pre.src,
                self@.line == pre.line,
                0 <= pre.pos <= self@.pos,
                skip_digits(pre.src, pre.pos) == skip_digits(self@.src, self@.pos),
                self@.lexeme == pre.lexeme + pre.src.subrange(pre.pos, self@.pos),
            ensures
                self.wf(),
                !self@.eof,
                self@.src == pre.src,
                self@.line == pre.line,
                pre.pos <= self@.pos,
                self@.pos == skip_digits(pre.src, pre.pos),
                self@.lexeme == pre.lexeme + pre.src.subrange(pre.pos, self@.pos),
            decreases self@.src.len() - self@.pos,
        {
            let c = self.peek();
            if !is_digit(c) {
                break;
            }
            let ghost mid = self@;
            let _ = self.advance();
            proof {
                assert_seqs_equal!(
                    pre.src.subrange(pre.pos, mid.pos + 1)
                        == pre.src.subrange(pre.pos, mid.pos).push(pre.src[mid.pos])
                );
            }
        }
        proof {
            assert(self@ =~= (ScannerModel {
                pos: skip_digits(pre.src, pre.pos),
                lexeme: pre.lexeme + pre.src.subrange(pre.pos, self@.pos),
                ..pre
            }));
        }
    }

    /// Consumes the maximal run of identifier characters that starts
    /// at the cursor.
    fn word_run(&mut self)
        requires
            old(self).wf(),
            !old(self)@.eof,
        ensures
            final(self).wf(),
            !final(self)@.eof,
            old(self)@.pos <= final(self)@.pos,
            final(self)@ == (ScannerModel {
                pos: skip_word(old(self)@.src, old(self)@.pos),
                lexeme: old(self)@.lexeme + old(self)@.src.subrange(
                    old(self)@.pos,
                    final(self)@.pos,
                ),
                ..old(self)@
            }),
    {
        let ghost pre = self@;
        proof {
            assert(pre.lexeme + pre.src.subrange(pre.pos, pre.pos) =~= pre.lexeme);
        }
        loop
            invariant
                self.wf(),
                !self@.eof,
                self@.src == pre.src,
                self@.line == pre.line,
                0 <= pre.pos <= self@.pos,
                skip_word(pre.src, pre.pos) == skip_word(self@.src, self@.pos),
                self@.lexeme == pre.lexeme + pre.src.subrange(pre.pos, self@.pos),
            ensures
                self.wf(),
                !self@.eof,
                self@.src == pre.src,
                self@.line == pre.line,
                pre.pos <= self@.pos,
                self@.pos == skip_word(pre.src, pre.pos),
                self@.lexeme == pre.lexeme + pre.src.subrange(pre.pos, self@.pos),
            decreases self@.src.len() - self@.pos,
        {
            let c = self.peek();
            if !is_alphanumeric(c) {
                break;
            }
            let ghost mid = self@;
            let _ = self.advance();
            proof {
                assert_seqs_equal!(
                    pre.src.subrange(pre.pos, mid.pos + 1)
                        == pre.src.subrange(pre.pos, mid.pos).push(pre.src[mid.pos])
                );
            }
        }
        proof {
            assert(self@ =~= (ScannerModel {
                pos: skip_word(pre.src, pre.pos),
                lexeme: pre.lexeme + pre.src.subrange(pre.pos, self@.pos),
                ..pre
            }));
        }
    }

    /// Scans the remainder of a string literal, the opening quote
    /// having just been consumed into the lexeme.  A well-formed
    /// string yields a token whose literal value is the lexeme with
    /// the enclosing quotes stripped; reaching the end of the source
    /// first yields an unterminated-string error carrying everything
    /// consumed so far.
    fn string_literal(&mut self) -> (r: Option<Result<Token, LexicalError>>)
        requires
            old(self).wf(),
            !old(self)@.eof,
            1 <= old(self)@.pos,
            1 <= old(self)@.lexeme.len(),
        ensures
            final(self).wf(),
            !final(self)@.eof,
            final(self)@.src == old(self)@.src,
            ({
                let sr = scan_string(
                    old(self)@.src,
                    old(self)@.pos,
                    old(self)@.line,
                    old(self)@.lexeme,
                );
                &&& final(self)@.pos == sr.pos
                &&& final(self)@.line == sr.line
                &&& final(self)@.lexeme == sr.lex
                &&& sr.ok ==> (r matches Some(Ok(t)) && t@ == (SpecToken {
                    token_type: TokenType::String,
                    lexeme: sr.lex,
                    literal: Some(SpecLiteral::Str(sr.lex.subrange(1, sr.lex.len() - 1))),
                    line: old(self)@.line,
                }))
                &&& !sr.ok ==> (r matches Some(Err(e)) && e@ == (SpecError {
                    kind: LexicalErrorKind::UnterminatedString,
                    line: sr.line,
                    lexeme: sr.lex,
                }))
            }),
    {
        let ghost pre = self@;
        let start_line = self.line;
        let mut ok = false;
        loop
            invariant_except_break
                !ok,
                scan_string(pre.src, pre.pos, pre.line, pre.lexeme) == scan_string(
                    self@.src,
                    self@.pos,
                    self@.line,
                    self@.lexeme,
                ),
            invariant
                self.wf(),
                !self@.eof,
                self@.src == pre.src,
                1 <= self@.pos,
                1 <= self@.lexeme.len(),
                start_line == pre.line,
            ensures
                self.wf(),
                !self@.eof,
                self@.src == pre.src,
                start_line == pre.line,
                ok ==> 2 <= self@.lexeme.len(),
                scan_string(pre.src, pre.pos, pre.line, pre.lexeme) == (StrScan {
                    ok,
                    lex: self@.lexeme,
                    pos: self@.pos,
                    line: self@.line,
                }),
            decreases self@.src.len() - self@.pos,
        {
            let c = self.peek();
            if c == '\0' {
                break;
            }
            if c == '"' {
                let prev = self.src[self.pos - 1];
                if prev == '\\' {
                    let ghost mid = self@;
                    let _ = self.lexeme.pop();
                    proof {
                        assert(self@.lexeme =~= mid.lexeme.take(mid.lexeme.len() - 1));
                    }
                    let _ = self.advance();
                } else {
                    let _ = self.advance();
                    ok = true;
                    break;
                }
            } else {
                let _ = self.advance();
                if c == '\n' {
                    proof {
                        assert(self@.line <= self@.src.len());
                    }
                    self.line = self.line + 1;
                }
            }
        }
        if ok {
            let n = self.lexeme.len();
            let inner = copy_range(&self.lexeme, 1, n - 1);
            let t = Token {
                token_type: TokenType::String,
                lexeme: chars_to_string(&self.lexeme),
                literal: Some(Literal::String(chars_to_string(&inner))),
                line: start_line,
            };
            Some(Ok(t))
        } else {
            self.err(LexicalErrorKind::UnterminatedString)
        }
    }

    /// Scans the remainder of a number literal, its first digit having
    /// just been consumed: a maximal digit run, then a fractional part
    /// only when a dot is directly followed by another digit.  The
    /// literal value is the numeric lexeme itself.
    fn number_literal(&mut self) -> (r: Option<Result<Token, LexicalError>>)
        requires
            old(self).wf(),
            !old(self)@.eof,
        ensures
            final(self).wf(),
            !final(self)@.eof,
            final(self)@.src == old(self)@.src,
            final(self)@.line == old(self)@.line,
            old(self)@.pos <= final(self)@.pos,
            ({
                let d = skip_digits(old(self)@.src, old(self)@.pos);
                let end = if char_at(old(self)@.src, d) == '.' && is_digit_char(
                    char_at(old(self)@.src, d + 1),
                ) {
                    skip_digits(old(self)@.src, d + 2)
                } else {
                    d
                };
                let lex = old(self)@.lexeme + old(self)@.src.subrange(old(self)@.pos, end);
                &&& final(self)@.pos == end
                &&& final(self)@.lexeme == lex
                &&& r matches Some(Ok(t)) && t@ == (SpecToken {
                    token_type: TokenType::Number,
                    lexeme: lex,
                    literal: Some(SpecLiteral::Num(lex)),
                    line: old(self)@.line,
                })
            }),
    {
        let ghost pre = self@;
        self.digit_run();
        let ghost d = self@.pos;
        if self.peek() == '.' && is_digit(self.peek_next()) {
            let _ = self.advance();
            self.digit_run();
            proof {
                assert(skip_digits(pre.src, d + 1) == skip_digits(pre.src, d + 2));
                assert_seqs_equal!(
                    self@.lexeme == pre.lexeme + pre.src.subrange(pre.pos, self@.pos)
                );
            }
        } else {
            proof {
                assert(self@.lexeme == pre.lexeme + pre.src.subrange(pre.pos, self@.pos));
            }
        }
        self.literal_token(
            TokenType::Number,
            Some(Literal::Number(chars_to_string(&self.lexeme))),
        )
    }

    /// Scans the remainder of an identifier or reserved word, its
    /// first character having just been consumed: a maximal run of
    /// identifier characters, classified through the reserved-word
    /// table, with `true`, `false` and `null` carrying their literal
    /// values.
    fn identifier(&mut self) -> (r: Option<Result<Token, LexicalError>>)
        requires
            old(self).wf(),
            !old(self)@.eof,
        ensures
            final(self).wf(),
            !final(self)@.eof,
            final(self)@.src == old(self)@.src,
            final(self)@.line == old(self)@.line,
            old(self)@.pos <= final(self)@.pos,
            ({
                let end = skip_word(old(self)@.src, old(self)@.pos);
                let lex = old(self)@.lexeme + old(self)@.src.subrange(old(self)@.pos, end);
                let kind = match spec_reserved(lex) {
                    Some(t) => t,
                    None => TokenType::Identifier,
                };
                &&& final(self)@.pos == end
                &&& final(self)@.lexeme == lex
                &&& r matches Some(Ok(t)) && t@ == (SpecToken {
                    token_type: kind,
                    lexeme: lex,
                    literal: keyword_literal(kind),
                    line: old(self)@.line,
                })
            }),
    {
        self.word_run();
        let s = chars_to_string(&self.lexeme);
        let typ = match reserved(s.as_str()) {
            Some(t) => t,
            None => TokenType::Identifier,
        };
        match typ {
            TokenType::Null => self.literal_token(typ, Some(Literal::Null)),
            TokenType::True => self.literal_token(typ, Some(Literal::Boolean(true))),
            TokenType::False => self.literal_token(typ, Some(Literal::Boolean(false))),
            _ => self.static_token(typ),
        }
    }

    /// Produces the next item of the token stream.  Once the end of
    /// the source has been reported this returns `None` forever;
    /// otherwise it skips any whitespace and comments and returns
    /// exactly the token or recoverable error that `spec_next` assigns
    /// to the current position, leaving the scanner in the state that
    /// step describes.
    pub fn next(&mut self) -> (r: Option<Result<Token, LexicalError>>)
        requires
            old(self).wf(),
        ensures
            final(self).wf(),
            final(self)@.src == old(self)@.src,
            old(self)@.eof ==> r is None && final(self)@ == old(self)@,
            !old(self)@.eof ==> ({
                let step = spec_next(old(self)@.src, old(self)@.pos, old(self)@.line);
                &&& final(self)@.pos == step.pos
                &&& final(self)@.line == step.line
                &&& final(self)@.eof == step.eof
                &&& match step.item {
                    ScanItem::Tok(t) => r matches Some(Ok(tok)) && tok@ == t,
                    ScanItem::Fail(e) => r matches Some(Err(err)) && err@ == e,
                }
            }),
    {
        if self.eof {
            return None;
        }
        let ghost pre = self@;
        loop
            invariant
                pre == old(self)@,
                !pre.eof,
                self.wf(),
                !self@.eof,
                self@.src == pre.src,
                0 <= pre.pos <= self@.pos,
                spec_next(pre.src, pre.pos, pre.line) == spec_next(
                    self@.src,
                    self@.pos,
                    self@.line,
                ),
            decreases self@.src.len() - self@.pos,
        {
            self.lexeme.clear();
            let ghost d0 = self@;
            let co = self.advance();
            if self.eof {
                let t = Token {
                    token_type: TokenType::EOF,
                    lexeme: String::new(),
                    literal: None,
                    line: self.line,
                };
                proof {
                    assert(t@.lexeme =~= Seq::<char>::empty());
                }
                return Some(Ok(t));
            }
            let c = co.unwrap();
            proof {
                assert(c == d0.src[d0.pos]);
                assert(self@.lexeme =~= seq![c]);
            }
            if c == '(' {
                return self.static_token(TokenType::LeftParen);
            }
            if c == ')' {
                return self.static_token(TokenType::RightParen);
            }
            if c == '{' {
                return self.static_token(TokenType::LeftBrace);
            }
            if c == '}' {
                return self.static_token(TokenType::RightBrace);
            }
            if c == ',' {
                return self.static_token(TokenType::Comma);
            }
            if c == '.' {
                return self.static_token(TokenType::Dot);
            }
            if c == ';' {
                return self.static_token(TokenType::Semicolon);
            }
            if c == '-' {
                let r = self.match_static_token('=', TokenType::MinusEqual, TokenType::Minus);
                proof {
                    assert(seq![c].push('=') =~= seq![c, '=']);
                }
                return r;
            }
            if c == '+' {
                let r = self.match_static_token('=', TokenType::PlusEqual, TokenType::Plus);
                proof {
                    assert(seq![c].push('=') =~= seq![c, '=']);
                }
                return r;
            }
            if c == '!' {
                let r = self.match_static_token('=', TokenType::BangEqual, TokenType::Bang);
                proof {
                    assert(seq![c].push('=') =~= seq![c, '=']);
                }
                return r;
            }
            if c == '=' {
                let r = self.match_static_token('=', TokenType::EqualEqual, TokenType::Equal);
                proof {
                    assert(seq![c].push('=') =~= seq![c, '=']);
                }
                return r;
            }
            if c == '<' {
                let r = self.match_static_token('=', TokenType::LessEqual, TokenType::Less);
                proof {
                    assert(seq![c].push('=') =~= seq![c, '=']);
                }
                return r;
            }
            if c == '>' {
                let r = self.match_static_token('=', TokenType::GreaterEqual, TokenType::Greater);
                proof {
                    assert(seq![c].push('=') =~= seq![c, '=']);
                }
                return r;
            }
            if c == '*' {
                let r = self.match_static_token('=', TokenType::StarEqual, TokenType::Star);
                proof {
                    assert(seq![c].push('=') =~= seq![c, '=']);
                }
                return r;
            }
            if c == '"' {
                let r = self.string_literal();
                return r;
            }
            if c == '/' {
                if self.match_advance('/') {
                    self.line_comment();
                    continue;
                }
                if self.match_advance('*') {
                    self.block_comment();
                    continue;
                }
                let r = self.match_static_token('=', TokenType::SlashEqual, TokenType::Slash);
                proof {
                    assert(seq![c].push('=') =~= seq![c, '=']);
                }
                return r;
            }
            if c == '\n' {
                proof {
                    assert(self@.line <= self@.src.len());
                }
                self.line = self.line + 1;
                continue;
            }
            if is_space(c) {
                continue;
            }
            if is_digit(c) {
                let r = self.number_literal();
                proof {
                    assert_seqs_equal!(
                        seq![c] + d0.src.subrange(d0.pos + 1, self@.pos)
                            == d0.src.subrange(d0.pos, self@.pos)
                    );
                }
                return r;
            }
            if is_alphanumeric(c) {
                let r = self.identifier();
                proof {
                    assert_seqs_equal!(
                        seq![c] + d0.src.subrange(d0.pos + 1, self@.pos)
                            == d0.src.subrange(d0.pos, self@.pos)
                    );
                }
                return r;
            }
            return self.err(LexicalErrorKind::UnexpectedCharacter);
        }
    }
}

/// Checks whether a character is a decimal digit.
fn is_digit(c: char) -> (r: bool)
    ensures
        r == is_digit_char(c),
{
    '0' <= c && c <= '9'
}

/// Copies the characters of `v` between `from` and `to` into a fresh
/// buffer.
fn copy_range(v: &Vec<char>, from: usize, to: usize) -> (r: Vec<char>)
    requires
        from <= to <= v@.len(),
    ensures
        r@ == v@.subrange(from as int, to as int),
{
    let mut r: Vec<char> = Vec::new();
    proof {
        assert(r@ =~= v@.subrange(from as int, from as int));
    }
    let mut i: usize = from;
    while i < to
        invariant
            from <= i <= to <= v@.len(),
            r@ == v@.subrange(from as int, i as int),
        decreases to - i,
    {
        r.push(v[i]);
        proof {
            assert(r@ =~= v@.subrange(from as int, i as int + 1));
        }
        i = i + 1;
    }
    r
}

/// Checks whether a character is whitespace other than a newline.
fn is_space(c: char) -> (r: bool)
    ensures
        r == is_space_char(c),
{
    c == ' ' || c == '\t' || c == '\r' || c == '\u{000B}' || c == '\u{000C}'
}

/// Whether `stops` holds the character `c`.
fn contains_char(stops: &Vec<char>, c: char) -> (r: bool)
    ensures
        r == stops@.contains(c),
{
    let mut i: usize = 0;
    while i < stops.len()
        invariant
            0 <= i <= stops@.len(),
            forall|k: int| 0 <= k < i ==> stops@[k] != c,
        decreases stops@.len() - i,
    {
        if stops[i] == c {
            proof {
                assert(stops@[i as int] == c);
            }
            return true;
        }
        i = i + 1;
    }
    false
}

/// Copies the characters of a string slice into a vector.
pub fn str_to_chars(s: &str) -> (v: Vec<char>)
    ensures
        v@ == s@,
{
    let n = s.unicode_len();
    let mut v: Vec<char> = Vec::new();
    proof {
        assert(v@ =~= s@.subrange(0, 0));
    }
    let mut i: usize = 0;
    while i < n
        invariant
            i <= n,
            n == s@.len(),
            v@ == s@.subrange(0, i as int),
        decreases n - i,
    {
        let c = s.get_char(i);
        v.push(c);
        proof {
            assert(v@ =~= s@.subrange(0, i as int + 1));
        }
        i = i + 1;
    }
    proof {
        assert(s@.subrange(0, n as int) =~= s@);
    }
    v
}

/// Anything that can hand its characters to a fresh scanner.
pub trait TokenIterator where Self: Sized {
    /// The characters the scanner will read.
    spec fn chars_of(&self) -> Seq<char>;

    /// Builds a scanner over this value's characters, positioned at
    /// the start of line 1.
    fn tokens(self) -> (s: Scanner)
        requires
            self.chars_of().len() < usize::MAX as int,
        ensures
            s.wf(),
            s@ == (ScannerModel {
                src: self.chars_of(),
                pos: 0,
                line: 1,
                eof: false,
                lexeme: Seq::<char>::empty(),
            }),
    ;
}

impl TokenIterator for Vec<char> {
    open spec fn chars_of(&self) -> Seq<char> {
        self@
    }

    fn tokens(self) -> (s: Scanner) {
        Scanner::new(self)
    }
}

impl<'a> TokenIterator for &'a str {
    open spec fn chars_of(&self) -> Seq<char> {
        self@
    }

    fn tokens(self) -> (s: Scanner) {
        Scanner::new(str_to_chars(self))
    }
}

} // verus!
