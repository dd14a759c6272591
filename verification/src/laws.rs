//! Proved properties of the scanner's specification: how the line
//! counter relates to the newlines consumed, how operator lexemes pair
//! with a trailing `=`, and what a source of nothing but whitespace
//! and comments scans to.

use crate::scanner::ScanItem;
use crate::scanner::SpecStep;
use crate::scanner::char_at;
use crate::scanner::is_digit_char;
use crate::scanner::is_op_char;
use crate::scanner::is_punct_char;
use crate::scanner::is_space_char;
use crate::scanner::is_word_char;
use crate::scanner::lemma_scan_until_bounds;
use crate::scanner::lemma_skip_block_bounds;
use crate::scanner::op_kind;
use crate::scanner::scan_string;
use crate::scanner::scan_until;
use crate::scanner::skip_block;
use crate::scanner::skip_digits;
use crate::scanner::skip_word;
use crate::scanner::spec_next;
use crate::token::SpecToken;
use crate::token::TokenType;
use vstd::prelude::*;

verus! {

/// The number of newline characters in `src` at positions from `lo`
/// (inclusive) to `hi` (exclusive).
pub open spec fn count_newlines(src: Seq<char>, lo: int, hi: int) -> int
    decreases hi - lo,
{
    if lo >= hi {
        0
    } else {
        count_newlines(src, lo, hi - 1) + if char_at(src, hi - 1) == '\n' {
            1int
        } else {
            0int
        }
    }
}

proof fn lemma_count_front(src: Seq<char>, lo: int, hi: int)
    requires
        lo < hi,
    ensures
        count_newlines(src, lo, hi) == (if char_at(src, lo) == '\n' {
            1int
        } else {
            0int
        }) + count_newlines(src, lo + 1, hi),
    decreases hi - lo,
{
    if lo + 1 < hi {
        lemma_count_front(src, lo, hi - 1);
    } else {
        assert(count_newlines(src, lo, lo) == 0);
        assert(count_newlines(src, hi, hi) == 0);
    }
}

proof fn lemma_count_split(src: Seq<char>, lo: int, mid: int, hi: int)
    requires
        lo <= mid <= hi,
    ensures
        count_newlines(src, lo, hi) == count_newlines(src, lo, mid) + count_newlines(src, mid, hi),
    decreases hi - mid,
{
    if mid < hi {
        lemma_count_split(src, lo, mid, hi - 1);
    }
}

proof fn lemma_count_zero(src: Seq<char>, lo: int, hi: int)
    requires
        forall|i: int| lo <= i < hi ==> char_at(src, i) != '\n',
    ensures
        count_newlines(src, lo, hi) == 0,
    decreases hi - lo,
{
    if lo < hi {
        lemma_count_zero(src, lo, hi - 1);
    }
}

proof fn lemma_scan_until_content(src: Seq<char>, pos: int, stops: Seq<char>)
    requires
        0 <= pos <= src.len(),
    ensures
        forall|i: int|
            pos <= i < scan_until(src, pos, stops) ==> !stops.contains(#[trigger] char_at(src, i)),
    decreases src.len() - pos,
{
    if pos < src.len() && !(stops.contains(src[pos]) || src[pos] == '\0') {
        lemma_scan_until_content(src, pos + 1, stops);
    }
}

proof fn lemma_skip_digits_bounds(src: Seq<char>, pos: int)
    requires
        0 <= pos <= src.len(),
    ensures
        pos <= skip_digits(src, pos) <= src.len(),
        forall|i: int| pos <= i < skip_digits(src, pos) ==> is_digit_char(#[trigger] char_at(src, i)),
    decreases src.len() - pos,
{
    if pos < src.len() && is_digit_char(src[pos]) {
        lemma_skip_digits_bounds(src, pos + 1);
    }
}

proof fn lemma_skip_word_bounds(src: Seq<char>, pos: int)
    requires
        0 <= pos <= src.len(),
    ensures
        pos <= skip_word(src, pos) <= src.len(),
        forall|i: int| pos <= i < skip_word(src, pos) ==> is_word_char(#[trigger] char_at(src, i)),
    decreases src.len() - pos,
{
    if pos < src.len() && is_word_char(src[pos]) {
        lemma_skip_word_bounds(src, pos + 1);
    }
}

proof fn lemma_skip_block_lines(src: Seq<char>, pos: int, line: int)
    requires
        0 <= pos <= src.len(),
    ensures
        ({
            let b = skip_block(src, pos, line);
            &&& pos <= b.pos <= src.len()
            &&& b.line == line + count_newlines(src, pos, b.pos)
            &&& line <= b.line
        }),
    decreases src.len() - pos,
{
    let b = skip_block(src, pos, line);
    if pos >= src.len() {
    } else if src[pos] == '\0' {
    } else if src[pos] == '*' && char_at(src, pos + 1) == '/' {
        assert forall|i: int| pos <= i < pos + 2 implies char_at(src, i) != '\n' by {
            assert(i == pos || i == pos + 1);
        }
        lemma_count_zero(src, pos, pos + 2);
    } else {
        let nl: int = if src[pos] == '\n' { 1 } else { 0 };
        lemma_skip_block_lines(src, pos + 1, line + nl);
        lemma_count_front(src, pos, b.pos);
    }
}

proof fn lemma_scan_string_lines(src: Seq<char>, pos: int, line: int, lex: Seq<char>)
    requires
        0 <= pos <= src.len(),
    ensures
        ({
            let sr = scan_string(src, pos, line, lex);
            &&& pos <= sr.pos <= src.len()
            &&& sr.line == line + count_newlines(src, pos, sr.pos)
            &&& line <= sr.line
        }),
    decreases src.len() - pos,
{
    let sr = scan_string(src, pos, line, lex);
    if pos >= src.len() || src[pos] == '\0' {
    } else if src[pos] == '"' {
        if char_at(src, pos - 1) == '\\' {
            lemma_scan_string_lines(src, pos + 1, line, lex.take(lex.len() - 1).push('"'));
            lemma_count_front(src, pos, sr.pos);
        } else {
            lemma_count_front(src, pos, pos + 1);
        }
    } else if src[pos] == '\n' {
        lemma_scan_string_lines(src, pos + 1, line + 1, lex.push('\n'));
        lemma_count_front(src, pos, sr.pos);
    } else {
        lemma_scan_string_lines(src, pos + 1, line, lex.push(src[pos]));
        lemma_count_front(src, pos, sr.pos);
    }
}

/// The line carried by a scan step's item.
pub open spec fn item_line(item: ScanItem) -> int {
    match item {
        ScanItem::Tok(t) => t.line,
        ScanItem::Fail(e) => e.line,
    }
}

/// Law: one scan step advances the line counter by exactly one for
/// each newline character it consumes — in code, strings and comments
/// alike — and the item it reports carries a line between the lines
/// at the start and at the end of the step.
pub proof fn lemma_step_lines(src: Seq<char>, pos: int, line: int)
    requires
        0 <= pos <= src.len(),
    ensures
        ({
            let step = spec_next(src, pos, line);
            &&& pos <= step.pos <= src.len()
            &&& step.line == line + count_newlines(src, pos, step.pos)
            &&& line <= step.line
            &&& line <= item_line(step.item) <= step.line
        }),
    decreases src.len() - pos,
{
    let step = spec_next(src, pos, line);
    if pos >= src.len() {
    } else {
        let c = src[pos];
        if is_punct_char(c) {
            lemma_count_front(src, pos, pos + 1);
        } else if is_op_char(c) {
            if char_at(src, pos + 1) == '=' {
                assert forall|i: int| pos <= i < pos + 2 implies char_at(src, i) != '\n' by {
                    assert(i == pos || i == pos + 1);
                }
                lemma_count_zero(src, pos, pos + 2);
            } else {
                lemma_count_front(src, pos, pos + 1);
            }
        } else if c == '/' {
            if char_at(src, pos + 1) == '/' {
                let p2 = scan_until(src, pos + 2, seq!['\n']);
                lemma_scan_until_bounds(src, pos + 2, seq!['\n']);
                lemma_scan_until_content(src, pos + 2, seq!['\n']);
                assert(seq!['\n'][0] == '\n');
                assert forall|i: int| pos <= i < p2 implies char_at(src, i) != '\n' by {
                    if pos + 2 <= i {
                        assert(!seq!['\n'].contains(char_at(src, i)));
                    }
                }
                lemma_count_zero(src, pos, p2);
                lemma_step_lines(src, p2, line);
                lemma_count_split(src, pos, p2, step.pos);
            } else if char_at(src, pos + 1) == '*' {
                let b = skip_block(src, pos + 2, line);
                lemma_skip_block_bounds(src, pos + 2, line);
                lemma_skip_block_lines(src, pos + 2, line);
                assert forall|i: int| pos <= i < pos + 2 implies char_at(src, i) != '\n' by {
                    assert(i == pos || i == pos + 1);
                }
                lemma_count_zero(src, pos, pos + 2);
                lemma_count_split(src, pos, pos + 2, b.pos);
                lemma_step_lines(src, b.pos, b.line);
                lemma_count_split(src, pos, b.pos, step.pos);
            } else if char_at(src, pos + 1) == '=' {
                assert forall|i: int| pos <= i < pos + 2 implies char_at(src, i) != '\n' by {
                    assert(i == pos || i == pos + 1);
                }
                lemma_count_zero(src, pos, pos + 2);
            } else {
                lemma_count_front(src, pos, pos + 1);
            }
        } else if c == '\n' {
            lemma_step_lines(src, pos + 1, line + 1);
            lemma_count_front(src, pos, step.pos);
        } else if is_space_char(c) {
            lemma_step_lines(src, pos + 1, line);
            lemma_count_front(src, pos, step.pos);
        } else if c == '"' {
            let sr = scan_string(src, pos + 1, line, seq!['"']);
            lemma_scan_string_lines(src, pos + 1, line, seq!['"']);
            lemma_count_front(src, pos, sr.pos);
        } else if is_digit_char(c) {
            let d = skip_digits(src, pos + 1);
            lemma_skip_digits_bounds(src, pos + 1);
            if char_at(src, d) == '.' && is_digit_char(char_at(src, d + 1)) {
                lemma_skip_digits_bounds(src, d + 2);
                let end = skip_digits(src, d + 2);
                assert forall|i: int| pos <= i < end implies char_at(src, i) != '\n' by {
                    if i == pos {
                    } else if i < d {
                        assert(is_digit_char(char_at(src, i)));
                    } else if i == d {
                    } else if i == d + 1 {
                    } else {
                        assert(is_digit_char(char_at(src, i)));
                    }
                }
                lemma_count_zero(src, pos, end);
            } else {
                assert forall|i: int| pos <= i < d implies char_at(src, i) != '\n' by {
                    if i > pos {
                        assert(is_digit_char(char_at(src, i)));
                    }
                }
                lemma_count_zero(src, pos, d);
            }
        } else if is_word_char(c) {
            let end = skip_word(src, pos + 1);
            lemma_skip_word_bounds(src, pos + 1);
            assert forall|i: int| pos <= i < end implies char_at(src, i) != '\n' by {
                if i > pos {
                    assert(is_word_char(char_at(src, i)));
                }
            }
            lemma_count_zero(src, pos, end);
        } else {
            lemma_count_front(src, pos, pos + 1);
        }
    }
}

/// Law: the lines carried by the items of two consecutive scan steps
/// never decrease.
pub proof fn lemma_lines_monotone(src: Seq<char>, pos: int, line: int)
    requires
        0 <= pos <= src.len(),
    ensures
        ({
            let s1 = spec_next(src, pos, line);
            let s2 = spec_next(src, s1.pos, s1.line);
            item_line(s1.item) <= item_line(s2.item)
        }),
{
    let s1 = spec_next(src, pos, line);
    lemma_step_lines(src, pos, line);
    lemma_step_lines(src, s1.pos, s1.line);
}

/// Law: an operator character directly followed by `=` scans to the
/// corresponding compound token, whose lexeme is the two characters.
pub proof fn lemma_operator_with_equal(src: Seq<char>, pos: int, line: int, c: char)
    requires
        0 <= pos < src.len(),
        src[pos] == c,
        is_op_char(c) || c == '/',
        char_at(src, pos + 1) == '=',
    ensures
        spec_next(src, pos, line) == (SpecStep {
            item: ScanItem::Tok(SpecToken {
                token_type: op_kind(c, true),
                lexeme: seq![c, '='],
                literal: None,
                line,
            }),
            pos: pos + 2,
            line,
            eof: false,
        }),
{
}

/// Law: an operator character not followed by `=` (nor, for the
/// slash, by a second slash or a star) scans to the single-character
/// token, whose lexeme is that character alone.
pub proof fn lemma_operator_alone(src: Seq<char>, pos: int, line: int, c: char)
    requires
        0 <= pos < src.len(),
        src[pos] == c,
        is_op_char(c) || c == '/',
        char_at(src, pos + 1) != '=',
        c == '/' ==> char_at(src, pos + 1) != '/' && char_at(src, pos + 1) != '*',
    ensures
        spec_next(src, pos, line) == (SpecStep {
            item: ScanItem::Tok(SpecToken {
                token_type: op_kind(c, false),
                lexeme: seq![c],
                literal: None,
                line,
            }),
            pos: pos + 1,
            line,
            eof: false,
        }),
{
}

/// Whether the source from `pos` on holds nothing but whitespace and
/// comments.
pub open spec fn trivia_only(src: Seq<char>, pos: int) -> bool
    decreases src.len() - pos
        via trivia_only_decreases
{
    if pos < 0 || pos >= src.len() {
        true
    } else {
        let c = src[pos];
        if c == '\n' || is_space_char(c) {
            trivia_only(src, pos + 1)
        } else if c == '/' && char_at(src, pos + 1) == '/' {
            trivia_only(src, scan_until(src, pos + 2, seq!['\n']))
        } else if c == '/' && char_at(src, pos + 1) == '*' {
            trivia_only(src, skip_block(src, pos + 2, 0).pos)
        } else {
            false
        }
    }
}

#[via_fn]
proof fn trivia_only_decreases(src: Seq<char>, pos: int) {
    if 0 <= pos < src.len() && src[pos] == '/' {
        if char_at(src, pos + 1) == '/' {
            lemma_scan_until_bounds(src, pos + 2, seq!['\n']);
        } else if char_at(src, pos + 1) == '*' {
            lemma_skip_block_bounds(src, pos + 2, 0);
        }
    }
}

proof fn lemma_skip_block_pos_any_line(src: Seq<char>, pos: int, l1: int, l2: int)
    ensures
        skip_block(src, pos, l1).pos == skip_block(src, pos, l2).pos,
    decreases src.len() - pos,
{
    if 0 <= pos < src.len() && src[pos] != '\0' && !(src[pos] == '*' && char_at(src, pos + 1)
        == '/') {
        lemma_skip_block_pos_any_line(
            src,
            pos + 1,
            if src[pos] == '\n' { l1 + 1 } else { l1 },
            if src[pos] == '\n' { l2 + 1 } else { l2 },
        );
    }
}

/// Law: a source that holds nothing but whitespace and comments scans
/// to the terminal end-of-input token alone, wherever the line counter
/// starts.
pub proof fn lemma_trivia_scans_to_eof(src: Seq<char>, pos: int, line: int)
    requires
        0 <= pos <= src.len(),
        trivia_only(src, pos),
    ensures
        ({
            let step = spec_next(src, pos, line);
            &&& step.item == ScanItem::Tok(SpecToken {
                token_type: TokenType::EOF,
                lexeme: Seq::<char>::empty(),
                literal: None,
                line: step.line,
            })
            &&& step.eof
        }),
    decreases src.len() - pos,
{
    if pos >= src.len() {
    } else {
        let c = src[pos];
        if c == '\n' {
            lemma_trivia_scans_to_eof(src, pos + 1, line + 1);
        } else if is_space_char(c) {
            lemma_trivia_scans_to_eof(src, pos + 1, line);
        } else if c == '/' && char_at(src, pos + 1) == '/' {
            lemma_scan_until_bounds(src, pos + 2, seq!['\n']);
            lemma_trivia_scans_to_eof(src, scan_until(src, pos + 2, seq!['\n']), line);
        } else {
            let b = skip_block(src, pos + 2, line);
            lemma_skip_block_bounds(src, pos + 2, line);
            lemma_skip_block_pos_any_line(src, pos + 2, line, 0);
            lemma_trivia_scans_to_eof(src, b.pos, b.line);
        }
    }
}

} // verus!
