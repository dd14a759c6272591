use lexer::scanner::{is_alphanumeric, Scanner, TokenIterator};
use lexer::token::{reserved, LexicalError, LexicalErrorKind, Literal, Token, TokenType};

fn scan_all(input: &str) -> Vec<Result<Token, LexicalError>> {
    let mut scanner = input.tokens();
    let mut out = Vec::new();
    while let Some(item) = scanner.next() {
        out.push(item);
    }
    out
}

fn ok(items: &[Result<Token, LexicalError>], i: usize) -> &Token {
    items[i].as_ref().expect("expected a token")
}

fn err(items: &[Result<Token, LexicalError>], i: usize) -> &LexicalError {
    items[i].as_ref().err().expect("expected an error")
}

#[test]
fn empty_input_yields_eof_alone() {
    let items = scan_all("");
    assert_eq!(items.len(), 1);
    let t = ok(&items, 0);
    assert_eq!(t.token_type, TokenType::EOF);
    assert_eq!(t.lexeme, "");
    assert_eq!(t.line, 1);
}

#[test]
fn whitespace_and_comments_yield_eof_alone() {
    let items = scan_all(" \t\r\n// a line comment\n/* a block\ncomment */   ");
    assert_eq!(items.len(), 1);
    assert_eq!(ok(&items, 0).token_type, TokenType::EOF);
}

#[test]
fn unterminated_block_comment_closes_silently() {
    let items = scan_all("/* never closed");
    assert_eq!(items.len(), 1);
    assert_eq!(ok(&items, 0).token_type, TokenType::EOF);
}

#[test]
fn stream_stays_exhausted_after_eof() {
    let mut scanner = "".tokens();
    assert!(scanner.next().is_some());
    assert!(scanner.next().is_none());
    assert!(scanner.next().is_none());
}

#[test]
fn punctuation_tokens() {
    let items = scan_all("(){},.;");
    let expected = [
        TokenType::LeftParen,
        TokenType::RightParen,
        TokenType::LeftBrace,
        TokenType::RightBrace,
        TokenType::Comma,
        TokenType::Dot,
        TokenType::Semicolon,
        TokenType::EOF,
    ];
    assert_eq!(items.len(), expected.len());
    for (i, want) in expected.iter().enumerate() {
        assert_eq!(ok(&items, i).token_type, *want);
    }
}

#[test]
fn compound_operators_have_two_character_lexemes() {
    let cases = [
        ("-=", TokenType::MinusEqual),
        ("+=", TokenType::PlusEqual),
        ("!=", TokenType::BangEqual),
        ("==", TokenType::EqualEqual),
        ("<=", TokenType::LessEqual),
        (">=", TokenType::GreaterEqual),
        ("*=", TokenType::StarEqual),
        ("/=", TokenType::SlashEqual),
    ];
    for (input, want) in cases {
        let items = scan_all(input);
        assert_eq!(items.len(), 2, "input {:?}", input);
        let t = ok(&items, 0);
        assert_eq!(t.token_type, want);
        assert_eq!(t.lexeme, input);
        assert_eq!(ok(&items, 1).token_type, TokenType::EOF);
    }
}

#[test]
fn single_operators_have_one_character_lexemes() {
    let cases = [
        ("-", TokenType::Minus),
        ("+", TokenType::Plus),
        ("!", TokenType::Bang),
        ("=", TokenType::Equal),
        ("<", TokenType::Less),
        (">", TokenType::Greater),
        ("*", TokenType::Star),
        ("/", TokenType::Slash),
    ];
    for (input, want) in cases {
        let items = scan_all(input);
        assert_eq!(items.len(), 2, "input {:?}", input);
        let t = ok(&items, 0);
        assert_eq!(t.token_type, want);
        assert_eq!(t.lexeme, input);
    }
}

#[test]
fn line_numbers_follow_newlines() {
    let items = scan_all("a\nb\n\nc");
    assert_eq!(items.len(), 4);
    assert_eq!(ok(&items, 0).line, 1);
    assert_eq!(ok(&items, 1).line, 2);
    assert_eq!(ok(&items, 2).line, 4);
    assert_eq!(ok(&items, 3).token_type, TokenType::EOF);
    assert_eq!(ok(&items, 3).line, 4);
}

#[test]
fn lines_never_decrease() {
    let items = scan_all("a // c\nb /* x\ny */ \"s\ntr\" + @\n z");
    let mut last = 0u64;
    for item in &items {
        let line = match item {
            Ok(t) => t.line,
            Err(e) => e.line,
        };
        assert!(line >= last);
        last = line;
    }
}

#[test]
fn string_literal_keeps_quotes_in_lexeme_only() {
    let items = scan_all("\"abc\"");
    assert_eq!(items.len(), 2);
    let t = ok(&items, 0);
    assert_eq!(t.token_type, TokenType::String);
    assert_eq!(t.lexeme, "\"abc\"");
    assert_eq!(t.literal, Some(Literal::String("abc".to_string())));
    assert_eq!(ok(&items, 1).token_type, TokenType::EOF);
}

#[test]
fn empty_string_literal() {
    let items = scan_all("\"\"");
    let t = ok(&items, 0);
    assert_eq!(t.token_type, TokenType::String);
    assert_eq!(t.lexeme, "\"\"");
    assert_eq!(t.literal, Some(Literal::String(String::new())));
}

#[test]
fn escaped_quote_stays_in_string() {
    let items = scan_all("\"a\\\"b\"");
    let t = ok(&items, 0);
    assert_eq!(t.token_type, TokenType::String);
    assert_eq!(t.lexeme, "\"a\"b\"");
    assert_eq!(t.literal, Some(Literal::String("a\"b".to_string())));
}

#[test]
fn multi_line_string_starts_on_its_first_line() {
    let items = scan_all("\"a\nb\" x");
    let t = ok(&items, 0);
    assert_eq!(t.token_type, TokenType::String);
    assert_eq!(t.line, 1);
    assert_eq!(t.literal, Some(Literal::String("a\nb".to_string())));
    let x = ok(&items, 1);
    assert_eq!(x.token_type, TokenType::Identifier);
    assert_eq!(x.line, 2);
}

#[test]
fn unterminated_string_yields_one_error_then_eof() {
    let items = scan_all("\"abc");
    assert_eq!(items.len(), 2);
    let e = err(&items, 0);
    assert_eq!(e.kind, LexicalErrorKind::UnterminatedString);
    assert_eq!(e.lexeme, "\"abc");
    assert_eq!(e.line, 1);
    assert_eq!(e.message(), "unterminated string");
    assert_eq!(ok(&items, 1).token_type, TokenType::EOF);
}

#[test]
fn number_with_fraction() {
    let items = scan_all("12.5");
    assert_eq!(items.len(), 2);
    let t = ok(&items, 0);
    assert_eq!(t.token_type, TokenType::Number);
    assert_eq!(t.lexeme, "12.5");
    assert_eq!(t.literal, Some(Literal::Number("12.5".to_string())));
    assert_eq!(ok(&items, 1).token_type, TokenType::EOF);
}

#[test]
fn numeric_literal_denotes_its_value() {
    let items = scan_all("12.5");
    match ok(&items, 0).literal.as_ref() {
        Some(Literal::Number(text)) => {
            let value: f64 = text.parse().expect("numeric lexeme parses");
            assert_eq!(value, 12.5);
        }
        other => panic!("expected a number literal, got {:?}", other),
    }
}

#[test]
fn trailing_dot_is_a_separate_token() {
    let items = scan_all("12.");
    assert_eq!(items.len(), 3);
    let n = ok(&items, 0);
    assert_eq!(n.token_type, TokenType::Number);
    assert_eq!(n.lexeme, "12");
    assert_eq!(ok(&items, 1).token_type, TokenType::Dot);
    assert_eq!(ok(&items, 2).token_type, TokenType::EOF);
}

#[test]
fn keyword_then_identifier() {
    let items = scan_all("fun myFun");
    assert_eq!(items.len(), 3);
    let kw = ok(&items, 0);
    assert_eq!(kw.token_type, TokenType::Fun);
    assert_eq!(kw.lexeme, "fun");
    assert_eq!(kw.literal, None);
    let id = ok(&items, 1);
    assert_eq!(id.token_type, TokenType::Identifier);
    assert_eq!(id.lexeme, "myFun");
    assert_eq!(id.literal, None);
    assert_eq!(ok(&items, 2).token_type, TokenType::EOF);
}

#[test]
fn comment_then_compound_operator_on_line_two() {
    let items = scan_all("// comment\n+=");
    assert_eq!(items.len(), 2);
    let t = ok(&items, 0);
    assert_eq!(t.token_type, TokenType::PlusEqual);
    assert_eq!(t.line, 2);
    assert_eq!(ok(&items, 1).token_type, TokenType::EOF);
}

#[test]
fn all_keywords_classify() {
    let items = scan_all("else true false fun for if null print mut const while");
    let expected = [
        TokenType::Else,
        TokenType::True,
        TokenType::False,
        TokenType::Fun,
        TokenType::For,
        TokenType::If,
        TokenType::Null,
        TokenType::Print,
        TokenType::Mut,
        TokenType::Const,
        TokenType::While,
        TokenType::EOF,
    ];
    assert_eq!(items.len(), expected.len());
    for (i, want) in expected.iter().enumerate() {
        assert_eq!(ok(&items, i).token_type, *want);
    }
    assert_eq!(ok(&items, 1).literal, Some(Literal::Boolean(true)));
    assert_eq!(ok(&items, 2).literal, Some(Literal::Boolean(false)));
    assert_eq!(ok(&items, 6).literal, Some(Literal::Null));
    assert_eq!(ok(&items, 0).literal, None);
}

#[test]
fn underscored_identifier() {
    let items = scan_all("_private_1");
    let t = ok(&items, 0);
    assert_eq!(t.token_type, TokenType::Identifier);
    assert_eq!(t.lexeme, "_private_1");
}

#[test]
fn unexpected_character_is_reported_and_skipped() {
    let items = scan_all("@+");
    assert_eq!(items.len(), 3);
    let e = err(&items, 0);
    assert_eq!(e.kind, LexicalErrorKind::UnexpectedCharacter);
    assert_eq!(e.lexeme, "@");
    assert_eq!(e.line, 1);
    assert_eq!(e.message(), "unexpected character");
    assert_eq!(ok(&items, 1).token_type, TokenType::Plus);
    assert_eq!(ok(&items, 2).token_type, TokenType::EOF);
}

#[test]
fn block_comment_between_tokens() {
    let items = scan_all("1/* c */2");
    assert_eq!(items.len(), 3);
    assert_eq!(ok(&items, 0).lexeme, "1");
    assert_eq!(ok(&items, 1).lexeme, "2");
}

#[test]
fn slash_comment_forms_do_not_swallow_followers() {
    let items = scan_all("/**/x");
    assert_eq!(items.len(), 2);
    assert_eq!(ok(&items, 0).lexeme, "x");
}

#[test]
fn reserved_table_lookup() {
    assert_eq!(reserved("while"), Some(TokenType::While));
    assert_eq!(reserved("null"), Some(TokenType::Null));
    assert_eq!(reserved("whilee"), None);
    assert_eq!(reserved(""), None);
}

#[test]
fn identifier_characters() {
    assert!(is_alphanumeric('a'));
    assert!(is_alphanumeric('Z'));
    assert!(is_alphanumeric('7'));
    assert!(is_alphanumeric('_'));
    assert!(!is_alphanumeric('-'));
    assert!(!is_alphanumeric(' '));
}

#[test]
fn default_token_is_eof() {
    let t = Token::default();
    assert_eq!(t.token_type, TokenType::EOF);
    assert_eq!(t.lexeme, "");
    assert_eq!(t.literal, None);
    assert_eq!(t.line, 0);
}

#[test]
fn scanner_over_character_vector() {
    let chars: Vec<char> = "print 1;".chars().collect();
    let mut scanner = Scanner::new(chars);
    let mut kinds = Vec::new();
    while let Some(item) = scanner.next() {
        kinds.push(item.expect("valid input").token_type);
    }
    assert_eq!(
        kinds,
        vec![TokenType::Print, TokenType::Number, TokenType::Semicolon, TokenType::EOF]
    );
}

#[test]
fn vector_tokens_matches_str_tokens() {
    let chars: Vec<char> = "a<=b".chars().collect();
    let mut from_vec = chars.tokens();
    let mut from_str = "a<=b".tokens();
    loop {
        let a = from_vec.next();
        let b = from_str.next();
        match (a, b) {
            (None, None) => break,
            (Some(Ok(x)), Some(Ok(y))) => {
                assert_eq!(x.token_type, y.token_type);
                assert_eq!(x.lexeme, y.lexeme);
                assert_eq!(x.line, y.line);
            }
            _ => panic!("streams disagree"),
        }
    }
}
