use lox_scanner::diagnostic::{Diagnostic, ErrorKind};
use lox_scanner::scanner::Scanner;
use lox_scanner::decimal::Decimal;
use lox_scanner::token::{Literal, Token, TokenType};

fn kinds(tokens: &[Token]) -> Vec<TokenType> {
    tokens.iter().map(|t| t.typ).collect()
}

fn eof() -> Token<'static> {
    Token::new(TokenType::Eof, "", Literal::Null)
}

#[test]
fn empty_source_yields_only_end_of_file() {
    let source = String::new();
    let mut scanner = Scanner::new(&source);
    let tokens = scanner.scan_tokens();
    assert_eq!(tokens, vec![eof()]);
    assert!(!scanner.error_found);
    assert!(!scanner.had_error());
    assert!(scanner.diagnostics().is_empty());
}

#[test]
fn single_character_punctuation() {
    let source = String::from("(){},.+-;*");
    let mut scanner = Scanner::new(&source);
    let tokens = scanner.scan_tokens();
    assert_eq!(
        tokens,
        vec![
            Token::new(TokenType::Lparen, "(", Literal::Null),
            Token::new(TokenType::Rparen, ")", Literal::Null),
            Token::new(TokenType::Lbrace, "{", Literal::Null),
            Token::new(TokenType::Rbrace, "}", Literal::Null),
            Token::new(TokenType::Comma, ",", Literal::Null),
            Token::new(TokenType::Dot, ".", Literal::Null),
            Token::new(TokenType::Plus, "+", Literal::Null),
            Token::new(TokenType::Minus, "-", Literal::Null),
            Token::new(TokenType::Semicolon, ";", Literal::Null),
            Token::new(TokenType::Star, "*", Literal::Null),
            eof(),
        ]
    );
    assert!(!scanner.error_found);
}

#[test]
fn operators_take_the_longest_match() {
    let source = String::from("== = != ! <= < >= >");
    let mut scanner = Scanner::new(&source);
    let tokens = scanner.scan_tokens();
    assert_eq!(
        tokens,
        vec![
            Token::new(TokenType::DoubleEqual, "==", Literal::Null),
            Token::new(TokenType::Equal, "=", Literal::Null),
            Token::new(TokenType::BangEqual, "!=", Literal::Null),
            Token::new(TokenType::Bang, "!", Literal::Null),
            Token::new(TokenType::LessEqual, "<=", Literal::Null),
            Token::new(TokenType::Less, "<", Literal::Null),
            Token::new(TokenType::GreaterEqual, ">=", Literal::Null),
            Token::new(TokenType::Greater, ">", Literal::Null),
            eof(),
        ]
    );
    assert!(!scanner.error_found);
}

#[test]
fn double_equal_never_splits() {
    let source = String::from("===");
    let mut scanner = Scanner::new(&source);
    let tokens = scanner.scan_tokens();
    assert_eq!(
        kinds(&tokens),
        vec![TokenType::DoubleEqual, TokenType::Equal, TokenType::Eof]
    );
    assert_eq!(tokens[0].lexeme, "==");
    assert_eq!(tokens[1].lexeme, "=");
}

#[test]
fn bang_before_another_symbol_stands_alone() {
    let source = String::from("!(<\n=\t>=!");
    let mut scanner = Scanner::new(&source);
    let tokens = scanner.scan_tokens();
    assert_eq!(
        kinds(&tokens),
        vec![
            TokenType::Bang,
            TokenType::Lparen,
            TokenType::Less,
            TokenType::Equal,
            TokenType::GreaterEqual,
            TokenType::Bang,
            TokenType::Eof,
        ]
    );
    assert!(!scanner.error_found);
}

#[test]
fn white_space_yields_no_token() {
    let source = String::from(" \r\t\n \n");
    let mut scanner = Scanner::new(&source);
    let tokens = scanner.scan_tokens();
    assert_eq!(tokens, vec![eof()]);
    assert!(!scanner.error_found);
}

#[test]
fn slash_alone_is_a_token() {
    let source = String::from("1/2");
    let mut scanner = Scanner::new(&source);
    let tokens = scanner.scan_tokens();
    assert_eq!(
        kinds(&tokens),
        vec![TokenType::Number, TokenType::Slash, TokenType::Number, TokenType::Eof]
    );
    assert_eq!(tokens[1], Token::new(TokenType::Slash, "/", Literal::Null));
}

#[test]
fn comment_runs_to_the_end_of_the_line() {
    let source = String::from("+ // not - tokens \" @\n-");
    let mut scanner = Scanner::new(&source);
    let tokens = scanner.scan_tokens();
    assert_eq!(kinds(&tokens), vec![TokenType::Plus, TokenType::Minus, TokenType::Eof]);
    assert!(!scanner.error_found);
}

#[test]
fn comment_may_end_the_source() {
    let source = String::from("// nothing follows");
    let mut scanner = Scanner::new(&source);
    let tokens = scanner.scan_tokens();
    assert_eq!(tokens, vec![eof()]);
    assert!(!scanner.error_found);
}

#[test]
fn newline_after_comment_counts_as_a_line() {
    let source = String::from("// one\n// two\n@");
    let mut scanner = Scanner::new(&source);
    let tokens = scanner.scan_tokens();
    assert_eq!(tokens, vec![eof()]);
    assert_eq!(
        scanner.diagnostics(),
        &vec![Diagnostic { line: 3, offset: 14, kind: ErrorKind::UnexpectedCharacter('@') }]
    );
}

#[test]
fn string_round_trip() {
    let source = String::from("\"abc\"");
    let mut scanner = Scanner::new(&source);
    let tokens = scanner.scan_tokens();
    assert_eq!(
        tokens,
        vec![Token::new(TokenType::String, "\"abc\"", Literal::Str("abc")), eof()]
    );
    assert!(!scanner.error_found);
    assert!(scanner.diagnostics().is_empty());
}

#[test]
fn empty_string_literal() {
    let source = String::from("\"\"");
    let mut scanner = Scanner::new(&source);
    let tokens = scanner.scan_tokens();
    assert_eq!(tokens, vec![Token::new(TokenType::String, "\"\"", Literal::Str("")), eof()]);
}

#[test]
fn string_knows_no_escape() {
    let source = String::from("\"a\\\"b");
    let mut scanner = Scanner::new(&source);
    let tokens = scanner.scan_tokens();
    assert_eq!(
        tokens,
        vec![
            Token::new(TokenType::String, "\"a\\\"", Literal::Str("a\\")),
            Token::new(TokenType::Identifier, "b", Literal::Null),
            eof(),
        ]
    );
}

#[test]
fn string_may_span_lines() {
    let source = String::from("\"a\nb\n\"@");
    let mut scanner = Scanner::new(&source);
    let tokens = scanner.scan_tokens();
    assert_eq!(
        tokens,
        vec![Token::new(TokenType::String, "\"a\nb\n\"", Literal::Str("a\nb\n")), eof()]
    );
    assert_eq!(
        scanner.diagnostics(),
        &vec![Diagnostic { line: 3, offset: 6, kind: ErrorKind::UnexpectedCharacter('@') }]
    );
}

#[test]
fn string_content_may_be_any_character() {
    let source = String::from("\"h\u{e9}llo \u{4e16}\u{754c}\" x");
    let mut scanner = Scanner::new(&source);
    let tokens = scanner.scan_tokens();
    assert_eq!(
        tokens,
        vec![
            Token::new(
                TokenType::String,
                "\"h\u{e9}llo \u{4e16}\u{754c}\"",
                Literal::Str("h\u{e9}llo \u{4e16}\u{754c}")
            ),
            Token::new(TokenType::Identifier, "x", Literal::Null),
            eof(),
        ]
    );
    assert!(!scanner.error_found);
}

#[test]
fn unterminated_string() {
    let source = String::from("\"abc");
    let mut scanner = Scanner::new(&source);
    let tokens = scanner.scan_tokens();
    assert_eq!(tokens, vec![eof()]);
    assert!(scanner.error_found);
    assert!(scanner.had_error());
    assert_eq!(
        scanner.diagnostics(),
        &vec![Diagnostic { line: 1, offset: 4, kind: ErrorKind::UnterminatedString }]
    );
    assert_eq!(scanner.diagnostics()[0].message(), "[line 1] Error: Unterminated string.");
}

#[test]
fn unterminated_string_keeps_earlier_tokens() {
    let source = String::from("var s = \"abc\ndef\n");
    let mut scanner = Scanner::new(&source);
    let tokens = scanner.scan_tokens();
    assert_eq!(
        kinds(&tokens),
        vec![TokenType::Var, TokenType::Identifier, TokenType::Equal, TokenType::Eof]
    );
    assert!(scanner.error_found);
    assert_eq!(
        scanner.diagnostics(),
        &vec![Diagnostic { line: 3, offset: 17, kind: ErrorKind::UnterminatedString }]
    );
    assert_eq!(scanner.diagnostics()[0].message(), "[line 3] Error: Unterminated string.");
}

#[test]
fn whole_number() {
    let source = String::from("1234");
    let mut scanner = Scanner::new(&source);
    let tokens = scanner.scan_tokens();
    assert_eq!(
        tokens,
        vec![
            Token::new(
                TokenType::Number,
                "1234",
                Literal::Number(Decimal { whole: "1234", fraction: "" })
            ),
            eof(),
        ]
    );
    assert_eq!(tokens[0].literal.render(), "1234.0");
    assert_eq!(tokens[0].render(), "NUMBER 1234 1234.0");
    assert_eq!(tokens[0].lexeme.parse::<f64>().unwrap(), 1234.0);
}

#[test]
fn number_with_fraction() {
    let source = String::from("12.34");
    let mut scanner = Scanner::new(&source);
    let tokens = scanner.scan_tokens();
    assert_eq!(
        tokens,
        vec![
            Token::new(
                TokenType::Number,
                "12.34",
                Literal::Number(Decimal { whole: "12", fraction: "34" })
            ),
            eof(),
        ]
    );
    assert_eq!(tokens[0].literal.render(), "12.34");
    assert_eq!(tokens[0].render(), "NUMBER 12.34 12.34");
    assert_eq!(tokens[0].lexeme.parse::<f64>().unwrap(), 12.34);
}

#[test]
fn number_before_a_dot_without_digit() {
    let source = String::from("123.");
    let mut scanner = Scanner::new(&source);
    let tokens = scanner.scan_tokens();
    assert_eq!(
        tokens,
        vec![
            Token::new(
                TokenType::Number,
                "123",
                Literal::Number(Decimal { whole: "123", fraction: "" })
            ),
            Token::new(TokenType::Dot, ".", Literal::Null),
            eof(),
        ]
    );
    assert_eq!(tokens[0].literal.render(), "123.0");
    assert!(!scanner.error_found);
}

#[test]
fn number_before_a_method_call() {
    let source = String::from("12.abs");
    let mut scanner = Scanner::new(&source);
    let tokens = scanner.scan_tokens();
    assert_eq!(
        kinds(&tokens),
        vec![TokenType::Number, TokenType::Dot, TokenType::Identifier, TokenType::Eof]
    );
    assert_eq!(tokens[0].lexeme, "12");
    assert_eq!(tokens[2].lexeme, "abs");
}

#[test]
fn number_takes_one_fraction_only() {
    let source = String::from("1.2.3");
    let mut scanner = Scanner::new(&source);
    let tokens = scanner.scan_tokens();
    assert_eq!(
        tokens,
        vec![
            Token::new(
                TokenType::Number,
                "1.2",
                Literal::Number(Decimal { whole: "1", fraction: "2" })
            ),
            Token::new(TokenType::Dot, ".", Literal::Null),
            Token::new(TokenType::Number, "3", Literal::Number(Decimal { whole: "3", fraction: "" })),
            eof(),
        ]
    );
}

#[test]
fn dot_before_a_number_is_a_token() {
    let source = String::from(".5");
    let mut scanner = Scanner::new(&source);
    let tokens = scanner.scan_tokens();
    assert_eq!(kinds(&tokens), vec![TokenType::Dot, TokenType::Number, TokenType::Eof]);
    assert_eq!(tokens[1].lexeme, "5");
}

#[test]
fn number_ends_where_letters_begin() {
    let source = String::from("12ab");
    let mut scanner = Scanner::new(&source);
    let tokens = scanner.scan_tokens();
    assert_eq!(
        tokens,
        vec![
            Token::new(TokenType::Number, "12", Literal::Number(Decimal { whole: "12", fraction: "" })),
            Token::new(TokenType::Identifier, "ab", Literal::Null),
            eof(),
        ]
    );
}

#[test]
fn keyword_needs_the_whole_run() {
    let source = String::from("forest");
    let mut scanner = Scanner::new(&source);
    let tokens = scanner.scan_tokens();
    assert_eq!(tokens, vec![Token::new(TokenType::Identifier, "forest", Literal::Null), eof()]);
}

#[test]
fn keywords_inside_longer_words_are_identifiers() {
    let source = String::from("orchid classy nil0 _var iffy superb thistle truest printer");
    let mut scanner = Scanner::new(&source);
    let tokens = scanner.scan_tokens();
    assert_eq!(tokens.len(), 10);
    for token in &tokens[..9] {
        assert_eq!(token.typ, TokenType::Identifier);
        assert_eq!(token.literal, Literal::Null);
    }
    assert_eq!(tokens[0].lexeme, "orchid");
    assert_eq!(tokens[8].lexeme, "printer");
}

#[test]
fn keyword_alone() {
    let source = String::from("for");
    let mut scanner = Scanner::new(&source);
    let tokens = scanner.scan_tokens();
    assert_eq!(tokens, vec![Token::new(TokenType::For, "for", Literal::Null), eof()]);
}

#[test]
fn every_reserved_word_is_a_keyword() {
    let source = String::from(
        "and class else false for fun if nil or print return super this true var while",
    );
    let mut scanner = Scanner::new(&source);
    let tokens = scanner.scan_tokens();
    assert_eq!(
        kinds(&tokens),
        vec![
            TokenType::And,
            TokenType::Class,
            TokenType::Else,
            TokenType::False,
            TokenType::For,
            TokenType::Fun,
            TokenType::If,
            TokenType::Nil,
            TokenType::Or,
            TokenType::Print,
            TokenType::Return,
            TokenType::Super,
            TokenType::This,
            TokenType::True,
            TokenType::Var,
            TokenType::While,
            TokenType::Eof,
        ]
    );
    assert!(tokens.iter().all(|t| t.literal == Literal::Null));
}

#[test]
fn keywords_are_case_sensitive() {
    let source = String::from("For WHILE nil_ _if");
    let mut scanner = Scanner::new(&source);
    let tokens = scanner.scan_tokens();
    assert_eq!(
        tokens,
        vec![
            Token::new(TokenType::Identifier, "For", Literal::Null),
            Token::new(TokenType::Identifier, "WHILE", Literal::Null),
            Token::new(TokenType::Identifier, "nil_", Literal::Null),
            Token::new(TokenType::Identifier, "_if", Literal::Null),
            eof(),
        ]
    );
}

#[test]
fn identifier_may_hold_digits_and_underscores() {
    let source = String::from("_a1_b2 x9");
    let mut scanner = Scanner::new(&source);
    let tokens = scanner.scan_tokens();
    assert_eq!(
        tokens,
        vec![
            Token::new(TokenType::Identifier, "_a1_b2", Literal::Null),
            Token::new(TokenType::Identifier, "x9", Literal::Null),
            eof(),
        ]
    );
}

#[test]
fn unexpected_character() {
    let source = String::from("@");
    let mut scanner = Scanner::new(&source);
    let tokens = scanner.scan_tokens();
    assert_eq!(tokens, vec![eof()]);
    assert!(scanner.error_found);
    assert_eq!(
        scanner.diagnostics(),
        &vec![Diagnostic { line: 1, offset: 0, kind: ErrorKind::UnexpectedCharacter('@') }]
    );
    assert_eq!(scanner.diagnostics()[0].message(), "[line 1] Error: Unexpected character: @");
}

#[test]
fn scanning_goes_on_after_an_error() {
    let source = String::from(",.$(#");
    let mut scanner = Scanner::new(&source);
    let tokens = scanner.scan_tokens();
    assert_eq!(
        kinds(&tokens),
        vec![TokenType::Comma, TokenType::Dot, TokenType::Lparen, TokenType::Eof]
    );
    assert!(scanner.error_found);
    assert_eq!(
        scanner.diagnostics(),
        &vec![
            Diagnostic { line: 1, offset: 2, kind: ErrorKind::UnexpectedCharacter('$') },
            Diagnostic { line: 1, offset: 4, kind: ErrorKind::UnexpectedCharacter('#') },
        ]
    );
}

#[test]
fn character_outside_ascii_is_unexpected() {
    let source = String::from("a \u{e9} b\n\u{3bb}");
    let mut scanner = Scanner::new(&source);
    let tokens = scanner.scan_tokens();
    assert_eq!(
        tokens,
        vec![
            Token::new(TokenType::Identifier, "a", Literal::Null),
            Token::new(TokenType::Identifier, "b", Literal::Null),
            eof(),
        ]
    );
    assert_eq!(
        scanner.diagnostics(),
        &vec![
            Diagnostic { line: 1, offset: 2, kind: ErrorKind::UnexpectedCharacter('\u{e9}') },
            Diagnostic { line: 2, offset: 6, kind: ErrorKind::UnexpectedCharacter('\u{3bb}') },
        ]
    );
    assert_eq!(
        scanner.diagnostics()[1].message(),
        "[line 2] Error: Unexpected character: \u{3bb}"
    );
}

#[test]
fn nul_character_is_unexpected() {
    let source = String::from("1\u{0}2");
    let mut scanner = Scanner::new(&source);
    let tokens = scanner.scan_tokens();
    assert_eq!(kinds(&tokens), vec![TokenType::Number, TokenType::Number, TokenType::Eof]);
    assert_eq!(
        scanner.diagnostics(),
        &vec![Diagnostic { line: 1, offset: 1, kind: ErrorKind::UnexpectedCharacter('\u{0}') }]
    );
}

#[test]
fn diagnostic_line_counts_the_newlines_before_it() {
    let source = String::from("@\n@\n\n  #\n\"a\nb");
    let mut scanner = Scanner::new(&source);
    let _ = scanner.scan_tokens();
    let found: Vec<Diagnostic> = scanner.diagnostics().clone();
    assert_eq!(
        found,
        vec![
            Diagnostic { line: 1, offset: 0, kind: ErrorKind::UnexpectedCharacter('@') },
            Diagnostic { line: 2, offset: 2, kind: ErrorKind::UnexpectedCharacter('@') },
            Diagnostic { line: 4, offset: 7, kind: ErrorKind::UnexpectedCharacter('#') },
            Diagnostic { line: 6, offset: 13, kind: ErrorKind::UnterminatedString },
        ]
    );
    let text: Vec<char> = source.chars().collect();
    for d in &found {
        let newlines = text[..d.offset].iter().filter(|c| **c == '\n').count();
        assert_eq!(d.line, newlines + 1);
    }
}

#[test]
fn two_scans_of_one_text_agree() {
    let source = String::from("var a = \"x\";\n@ 1.50 // c\n\"open");
    let mut first = Scanner::new(&source);
    let first_tokens = first.scan_tokens();
    let copy = source.clone();
    let mut second = Scanner::new(&copy);
    let second_tokens = second.scan_tokens();
    assert_eq!(first_tokens, second_tokens);
    assert_eq!(first.error_found, second.error_found);
    assert_eq!(first.diagnostics(), second.diagnostics());
    assert!(first.error_found);
    assert_eq!(first_tokens.len(), 7);
}

#[test]
fn second_call_adds_another_end_of_file() {
    let source = String::from("+");
    let mut scanner = Scanner::new(&source);
    let first = scanner.scan_tokens();
    assert_eq!(first, vec![Token::new(TokenType::Plus, "+", Literal::Null), eof()]);
    let second = scanner.scan_tokens();
    assert_eq!(second, vec![Token::new(TokenType::Plus, "+", Literal::Null), eof(), eof()]);
}

#[test]
fn error_flag_is_never_reset() {
    let source = String::from("@");
    let mut scanner = Scanner::new(&source);
    let _ = scanner.scan_tokens();
    assert!(scanner.error_found);
    let _ = scanner.scan_tokens();
    assert!(scanner.error_found);
    assert_eq!(scanner.diagnostics().len(), 1);
}

#[test]
fn end_to_end() {
    let source = String::from("var x = 10;\n// comment\nprint x;");
    let mut scanner = Scanner::new(&source);
    let tokens = scanner.scan_tokens();
    assert_eq!(
        tokens,
        vec![
            Token::new(TokenType::Var, "var", Literal::Null),
            Token::new(TokenType::Identifier, "x", Literal::Null),
            Token::new(TokenType::Equal, "=", Literal::Null),
            Token::new(TokenType::Number, "10", Literal::Number(Decimal { whole: "10", fraction: "" })),
            Token::new(TokenType::Semicolon, ";", Literal::Null),
            Token::new(TokenType::Print, "print", Literal::Null),
            Token::new(TokenType::Identifier, "x", Literal::Null),
            Token::new(TokenType::Semicolon, ";", Literal::Null),
            eof(),
        ]
    );
    assert!(!scanner.error_found);
    assert_eq!(scanner.newlines(), 2);
    assert_eq!(tokens[3].literal.render(), "10.0");
    assert_eq!(tokens[3].lexeme.parse::<f64>().unwrap(), 10.0);
    let lines: Vec<String> = tokens.iter().map(|t| t.render()).collect();
    assert_eq!(
        lines,
        vec![
            "VAR var null",
            "IDENTIFIER x null",
            "EQUAL = null",
            "NUMBER 10 10.0",
            "SEMICOLON ; null",
            "PRINT print null",
            "IDENTIFIER x null",
            "SEMICOLON ; null",
            "EOF  null",
        ]
    );
}

#[test]
fn line_counter_starts_at_the_first_line() {
    let source = String::from("a\nb");
    let mut scanner = Scanner::new(&source);
    assert_eq!(scanner.newlines(), 0);
    let _ = scanner.scan_tokens();
    assert_eq!(scanner.newlines(), 1);
}

#[test]
fn line_counter_counts_newlines_in_strings_and_after_comments() {
    let source = String::from("\"a\nb\"\n// c\n\n");
    let mut scanner = Scanner::new(&source);
    let _ = scanner.scan_tokens();
    assert_eq!(scanner.newlines(), 4);
    assert!(!scanner.error_found);
}

#[test]
fn line_counter_advances_over_the_whole_input() {
    let source = String::from("var x = 10;\n// comment\nprint x;@");
    let mut scanner = Scanner::new(&source);
    let _ = scanner.scan_tokens();
    assert_eq!(scanner.diagnostics().len(), 1);
    assert_eq!(scanner.diagnostics()[0].line, 3);
    assert_eq!(scanner.diagnostics()[0].offset, 31);
}

#[test]
fn parse_keyword_finds_reserved_words_only() {
    assert_eq!(Scanner::parse_keyword("and"), Some(TokenType::And));
    assert_eq!(Scanner::parse_keyword("class"), Some(TokenType::Class));
    assert_eq!(Scanner::parse_keyword("else"), Some(TokenType::Else));
    assert_eq!(Scanner::parse_keyword("false"), Some(TokenType::False));
    assert_eq!(Scanner::parse_keyword("for"), Some(TokenType::For));
    assert_eq!(Scanner::parse_keyword("fun"), Some(TokenType::Fun));
    assert_eq!(Scanner::parse_keyword("if"), Some(TokenType::If));
    assert_eq!(Scanner::parse_keyword("nil"), Some(TokenType::Nil));
    assert_eq!(Scanner::parse_keyword("or"), Some(TokenType::Or));
    assert_eq!(Scanner::parse_keyword("print"), Some(TokenType::Print));
    assert_eq!(Scanner::parse_keyword("return"), Some(TokenType::Return));
    assert_eq!(Scanner::parse_keyword("super"), Some(TokenType::Super));
    assert_eq!(Scanner::parse_keyword("this"), Some(TokenType::This));
    assert_eq!(Scanner::parse_keyword("true"), Some(TokenType::True));
    assert_eq!(Scanner::parse_keyword("var"), Some(TokenType::Var));
    assert_eq!(Scanner::parse_keyword("while"), Some(TokenType::While));
    assert_eq!(Scanner::parse_keyword(""), None);
    assert_eq!(Scanner::parse_keyword("fo"), None);
    assert_eq!(Scanner::parse_keyword("fort"), None);
    assert_eq!(Scanner::parse_keyword("FOR"), None);
    assert_eq!(Scanner::parse_keyword("f\u{f6}r"), None);
}

#[test]
fn identifier_characters() {
    for c in ['a', 'z', 'A', 'Z', '0', '9', '_', 'm', 'Q', '5'] {
        assert!(Scanner::valid_lox_identifier(c));
    }
    for c in [' ', '-', '@', '[', '`', '{', '/', ':', '\n', '\u{0}', '\u{e9}', '\u{661}'] {
        assert!(!Scanner::valid_lox_identifier(c));
    }
}
