use lox_scanner::diagnostic::Diagnostic;
use lox_scanner::diagnostic::DiagnosticKind;
use lox_scanner::scanner::scan;
use lox_scanner::scanner::Scanner;
use lox_scanner::token::Literal;
use lox_scanner::token::Token;
use lox_scanner::token::TokenType;

fn kinds_of(tokens: &[Token]) -> Vec<TokenType> {
    tokens.iter().map(|t| t.token_type).collect()
}

fn number_value(t: &Token) -> f64 {
    match &t.literal {
        Literal::Number(digits) => std::str::from_utf8(digits).unwrap().parse::<f64>().unwrap(),
        other => panic!("expected a number literal, got {:?}", other),
    }
}

#[test]
fn identifiers() {
    let mut scanner = Scanner::new(
        String::from(
            "andy formLess fo _ _123 _abc ab123 \n abcdefghijklmnopqrstuvwxyzABCDEFGHIJKLMNOPQRSTUVWXYZ1234567890_",
        )
        .into_bytes(),
    );
    let tokens = scanner.scan_tokens();

    let expected_tokens = [
        Token {
            token_type: TokenType::Identifier,
            lexeme: b"andy".to_vec(),
            literal: Literal::Absent,
            line: 1,
        },
        Token {
            token_type: TokenType::Identifier,
            lexeme: b"formLess".to_vec(),
            literal: Literal::Absent,
            line: 1,
        },
        Token {
            token_type: TokenType::Identifier,
            lexeme: b"fo".to_vec(),
            literal: Literal::Absent,
            line: 1,
        },
        Token {
            token_type: TokenType::Identifier,
            lexeme: b"_".to_vec(),
            literal: Literal::Absent,
            line: 1,
        },
        Token {
            token_type: TokenType::Identifier,
            lexeme: b"_123".to_vec(),
            literal: Literal::Absent,
            line: 1,
        },
        Token {
            token_type: TokenType::Identifier,
            lexeme: b"_abc".to_vec(),
            literal: Literal::Absent,
            line: 1,
        },
        Token {
            token_type: TokenType::Identifier,
            lexeme: b"ab123".to_vec(),
            literal: Literal::Absent,
            line: 1,
        },
        Token {
            token_type: TokenType::Identifier,
            lexeme: b"abcdefghijklmnopqrstuvwxyzABCDEFGHIJKLMNOPQRSTUVWXYZ1234567890_".to_vec(),
            literal: Literal::Absent,
            line: 2,
        },
        Token {
            token_type: TokenType::Eof,
            lexeme: Vec::new(),
            literal: Literal::Absent,
            line: 2,
        },
    ];

    assert_eq!(tokens.len(), expected_tokens.len());
    for (i, token) in tokens.iter().enumerate() {
        assert_eq!(*token, expected_tokens[i]);
    }
}

#[test]
fn empty_input_yields_only_sentinel() {
    let (tokens, had_error) = scan(Vec::new());
    assert_eq!(tokens.len(), 1);
    assert_eq!(
        tokens[0],
        Token { token_type: TokenType::Eof, lexeme: Vec::new(), literal: Literal::Absent, line: 1 }
    );
    assert!(!had_error);
}

#[test]
fn sentinel_line_is_one_plus_newline_count() {
    let (tokens, had_error) = scan(b"a\nb\n".to_vec());
    let last = tokens.last().unwrap();
    assert_eq!(last.token_type, TokenType::Eof);
    assert_eq!(last.lexeme, Vec::<u8>::new());
    assert_eq!(last.literal, Literal::Absent);
    assert_eq!(last.line, 3);
    assert!(!had_error);
}

#[test]
fn scanning_twice_is_deterministic() {
    let source = b"var x = 1.5; // note\n\"s\" @".to_vec();
    let (tokens_a, err_a) = scan(source.clone());
    let (tokens_b, err_b) = scan(source);
    assert_eq!(tokens_a, tokens_b);
    assert_eq!(err_a, err_b);
}

#[test]
fn greedy_two_char_match() {
    let (tokens, had_error) = scan(b"!=".to_vec());
    assert_eq!(kinds_of(&tokens), vec![TokenType::BangEqual, TokenType::Eof]);
    assert!(!had_error);
}

#[test]
fn comment_body_produces_no_tokens() {
    let (tokens, had_error) = scan(b"// foo\n+".to_vec());
    assert_eq!(kinds_of(&tokens), vec![TokenType::Plus, TokenType::Eof]);
    assert_eq!(tokens[0].line, 2);
    assert!(!had_error);
}

#[test]
fn string_literal_round_trip() {
    let (tokens, had_error) = scan(b"\"hello\"".to_vec());
    assert_eq!(kinds_of(&tokens), vec![TokenType::Str, TokenType::Eof]);
    assert_eq!(tokens[0].lexeme, b"\"hello\"".to_vec());
    assert_eq!(tokens[0].literal, Literal::Str(b"hello".to_vec()));
    assert!(!had_error);
}

#[test]
fn unterminated_string_reports_and_emits_no_token() {
    let mut scanner = Scanner::new(b"\"abc".to_vec());
    let kinds = kinds_of(scanner.scan_tokens());
    assert_eq!(kinds, vec![TokenType::Eof]);
    assert!(scanner.had_error());
    assert_eq!(
        scanner.diagnostics(),
        &vec![Diagnostic { kind: DiagnosticKind::UnterminatedString, line: 1 }]
    );
}

#[test]
fn unterminated_string_diagnostic_counts_its_newlines() {
    let mut scanner = Scanner::new(b"\"a\nbc".to_vec());
    let kinds = kinds_of(scanner.scan_tokens());
    assert_eq!(kinds, vec![TokenType::Eof]);
    assert_eq!(
        scanner.diagnostics(),
        &vec![Diagnostic { kind: DiagnosticKind::UnterminatedString, line: 2 }]
    );
}

#[test]
fn number_with_fractional_part() {
    let (tokens, had_error) = scan(b"123.45".to_vec());
    assert_eq!(kinds_of(&tokens), vec![TokenType::Number, TokenType::Eof]);
    assert_eq!(tokens[0].literal, Literal::Number(b"123.45".to_vec()));
    assert_eq!(number_value(&tokens[0]), 123.45);
    assert!(!had_error);
}

#[test]
fn trailing_dot_is_not_a_decimal_point() {
    let (tokens, had_error) = scan(b"123.".to_vec());
    assert_eq!(kinds_of(&tokens), vec![TokenType::Number, TokenType::Dot, TokenType::Eof]);
    assert_eq!(tokens[0].literal, Literal::Number(b"123".to_vec()));
    assert_eq!(number_value(&tokens[0]), 123.0);
    assert_eq!(tokens[1].lexeme, b".".to_vec());
    assert!(!had_error);
}

#[test]
fn keyword_match_is_exact() {
    let (tokens, _) = scan(b"classy".to_vec());
    assert_eq!(kinds_of(&tokens), vec![TokenType::Identifier, TokenType::Eof]);
    assert_eq!(tokens[0].lexeme, b"classy".to_vec());

    let (tokens, _) = scan(b"class".to_vec());
    assert_eq!(kinds_of(&tokens), vec![TokenType::Class, TokenType::Eof]);
}

#[test]
fn newlines_advance_the_line_counter() {
    let (tokens, had_error) = scan(b"\n\n+".to_vec());
    assert_eq!(kinds_of(&tokens), vec![TokenType::Plus, TokenType::Eof]);
    assert_eq!(tokens[0].line, 3);
    assert!(!had_error);
}

#[test]
fn all_sixteen_keywords() {
    let source = b"and class else false for fun if nil or print return super this true var while";
    let (tokens, had_error) = scan(source.to_vec());
    assert_eq!(
        kinds_of(&tokens),
        vec![
            TokenType::And,
            TokenType::Class,
            TokenType::Else,
            TokenType::False,
            TokenType::For,
            TokenType::Fun,
            TokenType::If,
            TokenType::Nil,
            TokenType::Or,
            TokenType::Print,
            TokenType::Return,
            TokenType::Super,
            TokenType::This,
            TokenType::True,
            TokenType::Var,
            TokenType::While,
            TokenType::Eof,
        ]
    );
    assert!(!had_error);
}

#[test]
fn single_character_tokens() {
    let (tokens, had_error) = scan(b"(){},.-+;*".to_vec());
    assert_eq!(
        kinds_of(&tokens),
        vec![
            TokenType::LeftParen,
            TokenType::RightParen,
            TokenType::LeftBrace,
            TokenType::RightBrace,
            TokenType::Comma,
            TokenType::Dot,
            TokenType::Minus,
            TokenType::Plus,
            TokenType::Semicolon,
            TokenType::Star,
            TokenType::Eof,
        ]
    );
    assert!(!had_error);
}

#[test]
fn one_or_two_character_operators() {
    let (tokens, had_error) = scan(b"! != = == < <= > >= /".to_vec());
    assert_eq!(
        kinds_of(&tokens),
        vec![
            TokenType::Bang,
            TokenType::BangEqual,
            TokenType::Equal,
            TokenType::EqualEqual,
            TokenType::Less,
            TokenType::LessEqual,
            TokenType::Greater,
            TokenType::GreaterEqual,
            TokenType::Slash,
            TokenType::Eof,
        ]
    );
    assert!(!had_error);
}

#[test]
fn unexpected_character_is_reported_and_scanning_resumes() {
    let mut scanner = Scanner::new(b"@+".to_vec());
    let kinds = kinds_of(scanner.scan_tokens());
    assert_eq!(kinds, vec![TokenType::Plus, TokenType::Eof]);
    assert!(scanner.had_error());
    assert_eq!(
        scanner.diagnostics(),
        &vec![Diagnostic { kind: DiagnosticKind::UnexpectedCharacter, line: 1 }]
    );
}

#[test]
fn every_fault_is_reported_in_one_pass() {
    let mut scanner = Scanner::new(b"@\n#".to_vec());
    let kinds = kinds_of(scanner.scan_tokens());
    assert_eq!(kinds, vec![TokenType::Eof]);
    assert_eq!(
        scanner.diagnostics(),
        &vec![
            Diagnostic { kind: DiagnosticKind::UnexpectedCharacter, line: 1 },
            Diagnostic { kind: DiagnosticKind::UnexpectedCharacter, line: 2 },
        ]
    );
}

#[test]
fn string_spanning_lines_tracks_the_closing_line() {
    let (tokens, had_error) = scan(b"\"a\nb\"".to_vec());
    assert_eq!(kinds_of(&tokens), vec![TokenType::Str, TokenType::Eof]);
    assert_eq!(tokens[0].literal, Literal::Str(b"a\nb".to_vec()));
    assert_eq!(tokens[0].line, 2);
    assert_eq!(tokens[1].line, 2);
    assert!(!had_error);
}

#[test]
fn backslash_is_a_literal_character_in_strings() {
    let (tokens, had_error) = scan(b"\"a\\b\"".to_vec());
    assert_eq!(kinds_of(&tokens), vec![TokenType::Str, TokenType::Eof]);
    assert_eq!(tokens[0].literal, Literal::Str(b"a\\b".to_vec()));
    assert!(!had_error);
}

#[test]
fn whitespace_produces_no_tokens() {
    let (tokens, had_error) = scan(b" \t\r+".to_vec());
    assert_eq!(kinds_of(&tokens), vec![TokenType::Plus, TokenType::Eof]);
    assert_eq!(tokens[0].line, 1);
    assert!(!had_error);
}

#[test]
fn number_ends_before_an_identifier() {
    let (tokens, had_error) = scan(b"123abc".to_vec());
    assert_eq!(kinds_of(&tokens), vec![TokenType::Number, TokenType::Identifier, TokenType::Eof]);
    assert_eq!(tokens[0].literal, Literal::Number(b"123".to_vec()));
    assert_eq!(tokens[1].lexeme, b"abc".to_vec());
    assert!(!had_error);
}

#[test]
fn second_dot_is_not_consumed_by_a_number() {
    let (tokens, had_error) = scan(b"123.45.67".to_vec());
    assert_eq!(
        kinds_of(&tokens),
        vec![TokenType::Number, TokenType::Dot, TokenType::Number, TokenType::Eof]
    );
    assert_eq!(tokens[0].literal, Literal::Number(b"123.45".to_vec()));
    assert_eq!(tokens[2].literal, Literal::Number(b"67".to_vec()));
    assert!(!had_error);
}

#[test]
fn comment_without_newline_runs_to_end_of_input() {
    let (tokens, had_error) = scan(b"+// trailing".to_vec());
    assert_eq!(kinds_of(&tokens), vec![TokenType::Plus, TokenType::Eof]);
    assert!(!had_error);
}

#[test]
fn token_new_builds_the_record() {
    let t = Token::new(TokenType::Str, b"\"hi\"".to_vec(), Literal::Str(b"hi".to_vec()), 7);
    assert_eq!(t.token_type, TokenType::Str);
    assert_eq!(t.lexeme, b"\"hi\"".to_vec());
    assert_eq!(t.literal, Literal::Str(b"hi".to_vec()));
    assert_eq!(t.line, 7);
}

#[test]
fn scan_agrees_with_a_scanner_run_by_hand() {
    let source = b"print 1 + 2; @".to_vec();
    let (tokens, had_error) = scan(source.clone());
    let mut scanner = Scanner::new(source);
    assert_eq!(&tokens, scanner.scan_tokens());
    assert_eq!(had_error, scanner.had_error());
}
