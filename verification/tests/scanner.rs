use rlox::scanner::token::{Token, TokenType};
use rlox::scanner::{count_newlines, ScanError, Scanner};
use rlox::walker::scanner::scan_tokens;
use rlox::walker::token::Token as WalkerToken;
use rlox::walker::token::TokenType as WalkerType;

const EOF_LINE_1: Token<'static> = Token { token_type: TokenType::Eof, line: 1, lexeme: "" };

fn scan_to_completion(source: &str) -> Result<Vec<Token<'_>>, ()> {
    let mut scanner = Scanner::new(source);
    let mut tokens = vec![];
    loop {
        let token = scanner.scan_token().map_err(|_| ())?;
        let is_eof = token.token_type == TokenType::Eof;
        tokens.push(token);
        if is_eof {
            break;
        }
    }
    Ok(tokens)
}

fn one_liner_on_line(token_types: Vec<WalkerType>, line: usize) -> Vec<WalkerToken> {
    token_types
        .into_iter()
        .chain(vec![WalkerType::Eof])
        .map(|token_type| WalkerToken { token_type, line })
        .collect()
}

fn one_liner(token_types: Vec<WalkerType>) -> Vec<WalkerToken> {
    one_liner_on_line(token_types, 1)
}

const KEYWORDS: [(&str, TokenType); 17] = [
    ("and", TokenType::And),
    ("class", TokenType::Class),
    ("else", TokenType::Else),
    ("false", TokenType::False),
    ("for", TokenType::For),
    ("fun", TokenType::Fun),
    ("if", TokenType::If),
    ("nil", TokenType::Nil),
    ("or", TokenType::Or),
    ("print", TokenType::Print),
    ("return", TokenType::Return),
    ("super", TokenType::Super),
    ("this", TokenType::This),
    ("true", TokenType::True),
    ("var", TokenType::Var),
    ("while", TokenType::While),
    ("break", TokenType::Break),
];

fn walker_keywords() -> Vec<(&'static str, WalkerType)> {
    vec![
        ("and", WalkerType::And),
        ("class", WalkerType::Class),
        ("else", WalkerType::Else),
        ("false", WalkerType::False),
        ("for", WalkerType::For),
        ("fun", WalkerType::Fun),
        ("if", WalkerType::If),
        ("nil", WalkerType::Nil),
        ("or", WalkerType::Or),
        ("print", WalkerType::Print),
        ("return", WalkerType::Return),
        ("super", WalkerType::Super),
        ("this", WalkerType::This),
        ("true", WalkerType::True),
        ("var", WalkerType::Var),
        ("while", WalkerType::While),
        ("break", WalkerType::Break),
    ]
}

#[test]
fn test_scans_one_token_at_a_time() {
    let source = "(\n)";
    let mut scanner = Scanner::new(source);
    assert_eq!(scanner.scan_token().unwrap(), TokenType::LeftParen.to_token(1, "("));
    assert_eq!(scanner.scan_token().unwrap(), TokenType::RightParen.to_token(2, ")"));
}

#[test]
fn test_scan_error_does_not_block_rest() {
    let source = "1.";
    let mut scanner = Scanner::new(source);
    assert!(scanner.scan_token().is_err());
    assert_eq!(scanner.scan_token().unwrap(), TokenType::Number.to_token(1, "1."));
    assert_eq!(scanner.scan_token().unwrap(), EOF_LINE_1);

    // Lox only supports ascii identifiers.
    let source = "print ß;";
    let mut scanner = Scanner::new(source);
    assert_eq!(scanner.scan_token().unwrap(), TokenType::Print.to_token(1, "print"));
    assert!(scanner.scan_token().is_err());
    assert_eq!(scanner.scan_token().unwrap(), TokenType::Semicolon.to_token(1, ";"));
    assert_eq!(scanner.scan_token().unwrap(), EOF_LINE_1);
}

#[test]
fn scanner_test_error() {
    scan_to_completion("%").expect_err("Failed to error while scanning invalid source");
    scan_to_completion("asdf%").expect_err("Failed to error while scanning invalid source");
    scan_to_completion("1234%").expect_err("Failed to error while scanning invalid source");

    scan_tokens("%").expect_err("Failed to error while scanning invalid source");
    scan_tokens("asdf%").expect_err("Failed to error while scanning invalid source");
    scan_tokens("1234%").expect_err("Failed to error while scanning invalid source");
}

#[test]
fn scanner_test_keywords() {
    for (key, val) in KEYWORDS.iter() {
        let source = format!("({key})");
        let tokens = scan_to_completion(&source).unwrap();
        assert_eq!(
            tokens,
            vec![
                TokenType::LeftParen.to_token(1, "("),
                val.to_token(1, key),
                TokenType::RightParen.to_token(1, ")"),
                EOF_LINE_1
            ]
        );
    }
    for (key, val) in walker_keywords() {
        let tokens = scan_tokens(&format!("({key})")).unwrap();
        assert_eq!(tokens, one_liner(vec![WalkerType::LeftParen, val.clone(), WalkerType::RightParen]));
    }
}

#[test]
fn scanner_test_identifier() {
    for word in ["a ", "a", "a5", "_az_AZ_09_"] {
        let tokens = scan_to_completion(word).unwrap();
        assert_eq!(tokens, vec![TokenType::Identifier.to_token(1, word.trim_end()), EOF_LINE_1]);

        let tokens = scan_tokens(word).unwrap();
        assert_eq!(tokens, one_liner(vec![WalkerType::Identifier(word.trim_end().to_string())]));
    }
}

#[test]
fn scanner_test_number() {
    let tokens = scan_to_completion("123  \r\t   456 \t\t0.5 ").unwrap();
    assert_eq!(
        tokens,
        vec![
            TokenType::Number.to_token(1, "123"),
            TokenType::Number.to_token(1, "456"),
            TokenType::Number.to_token(1, "0.5"),
            EOF_LINE_1
        ]
    );

    let tokens = scan_tokens("123 456 0.5 ").unwrap();
    assert_eq!(
        tokens,
        one_liner(vec![
            WalkerType::Number("123".to_string()),
            WalkerType::Number("456".to_string()),
            WalkerType::Number("0.5".to_string())
        ])
    );
}

#[test]
fn test_number_trailing_dot() {
    let tokens = scan_to_completion("123.x").unwrap();
    assert_eq!(
        tokens,
        vec![
            TokenType::Number.to_token(1, "123"),
            TokenType::Dot.to_token(1, "."),
            TokenType::Identifier.to_token(1, "x"),
            EOF_LINE_1
        ]
    );
}

#[test]
fn test_numbers_at_eof() {
    let tokens = scan_to_completion("9").unwrap();
    assert_eq!(tokens, vec![TokenType::Number.to_token(1, "9"), EOF_LINE_1]);

    let tokens = scan_to_completion("9.0").unwrap();
    assert_eq!(tokens, vec![TokenType::Number.to_token(1, "9.0"), EOF_LINE_1]);

    assert!(scan_to_completion("9.").is_err());
}

#[test]
fn test_number_at_eof() {
    let tokens = scan_tokens("9").unwrap();
    assert_eq!(tokens, one_liner(vec![WalkerType::Number("9".to_string())]));
}

#[test]
fn scanner_test_string() {
    let s = "\"Hello, World!\"";
    let tokens = scan_to_completion(s).unwrap();
    assert_eq!(tokens, vec![TokenType::String.to_token(1, s), EOF_LINE_1]);

    let tokens = scan_tokens("\"Hello, World!\"()").unwrap();
    assert_eq!(
        tokens,
        one_liner(vec![
            WalkerType::String("Hello, World!".to_string()),
            WalkerType::LeftParen,
            WalkerType::RightParen
        ])
    );
}

#[test]
fn test_print_string() {
    let s = "print \"Hello, World!\"";
    let tokens = scan_to_completion(s).unwrap();
    assert_eq!(
        tokens,
        vec![
            TokenType::Print.to_token(1, "print"),
            TokenType::String.to_token(1, "\"Hello, World!\""),
            EOF_LINE_1
        ]
    );
}

#[test]
fn test_with_unicode_string() {
    let s = "\"Hello, µWorld!\"";
    let tokens = scan_to_completion(s).unwrap();
    assert_eq!(tokens, vec![TokenType::String.to_token(1, s), EOF_LINE_1]);
}

#[test]
fn scanner_test_line_comment() {
    assert_eq!(scan_to_completion("// 1234").unwrap(), vec![EOF_LINE_1]);
    assert_eq!(scan_tokens("// 1234").unwrap(), one_liner(vec![]));
}

#[test]
fn scanner_test_line_comment_2() {
    assert_eq!(
        scan_to_completion("// 1234\n(").unwrap(),
        vec![TokenType::LeftParen.to_token(2, "("), TokenType::Eof.to_token(2, "")]
    );
    assert_eq!(scan_tokens("// 1234\n(").unwrap(), one_liner_on_line(vec![WalkerType::LeftParen], 2));
}

#[test]
fn scanner_test_block_comments() {
    assert_eq!(scan_to_completion("/* 1234").unwrap(), vec![EOF_LINE_1]);
    assert_eq!(scan_to_completion("/* 1234 */").unwrap(), vec![EOF_LINE_1]);
    assert_eq!(
        scan_to_completion("(/* 1234 */)").unwrap(),
        vec![TokenType::LeftParen.to_token(1, "("), TokenType::RightParen.to_token(1, ")"), EOF_LINE_1]
    );

    assert_eq!(scan_tokens("/* 1234").unwrap(), one_liner(vec![]));
    assert_eq!(scan_tokens("/* 1234 */").unwrap(), one_liner(vec![]));
    assert_eq!(
        scan_tokens("(/* 1234 */)").unwrap(),
        one_liner(vec![WalkerType::LeftParen, WalkerType::RightParen])
    );
}

#[test]
fn scanner_test_block_comments_nesting() {
    assert_eq!(scan_to_completion("/* /* 1234 */ 5678").unwrap(), vec![EOF_LINE_1]);
    assert_eq!(
        scan_to_completion("(/* /* 1234 */ 5678 */)").unwrap(),
        vec![TokenType::LeftParen.to_token(1, "("), TokenType::RightParen.to_token(1, ")"), EOF_LINE_1]
    );

    assert_eq!(scan_tokens("/* /* 1234 */ 5678").unwrap(), one_liner(vec![]));
    assert_eq!(
        scan_tokens("(/* /* 1234 */ 5678 */)").unwrap(),
        one_liner(vec![WalkerType::LeftParen, WalkerType::RightParen])
    );
}

#[test]
fn scanner_test_scan_simple() {
    let tokens = scan_to_completion("(").unwrap();
    assert_eq!(tokens, vec![TokenType::LeftParen.to_token(1, "("), EOF_LINE_1]);

    let tokens = scan_tokens("(").unwrap();
    assert_eq!(tokens, one_liner(vec![WalkerType::LeftParen]));
}

#[test]
fn scanner_test_scan_tokens_larger_input() {
    let tokens = scan_to_completion(
        r#"// this is a comment
            (( )){} // grouping stuff
            !*+-/=<> <= == // operators
            /**/
            "#,
    );
    assert!(tokens.is_ok());
    let tokens = tokens.unwrap();
    let expected_types = [
        (TokenType::LeftParen, 2, "("),
        (TokenType::LeftParen, 2, "("),
        (TokenType::RightParen, 2, ")"),
        (TokenType::RightParen, 2, ")"),
        (TokenType::LeftBrace, 2, "{"),
        (TokenType::RightBrace, 2, "}"),
        (TokenType::Bang, 3, "!"),
        (TokenType::Star, 3, "*"),
        (TokenType::Plus, 3, "+"),
        (TokenType::Minus, 3, "-"),
        (TokenType::Slash, 3, "/"),
        (TokenType::Equal, 3, "="),
        (TokenType::Less, 3, "<"),
        (TokenType::Greater, 3, ">"),
        (TokenType::LessEqual, 3, "<="),
        (TokenType::EqualEqual, 3, "=="),
        (TokenType::Eof, 5, ""),
    ];
    let expected: Vec<Token> = expected_types
        .iter()
        .map(|(token_type, line, lexeme)| Token { token_type: *token_type, line: *line, lexeme: *lexeme })
        .collect();
    assert_eq!(tokens, expected);

    let tokens = scan_tokens(
        r#"// this is a comment
            (( )){} // grouping stuff
            !*+-/=<> <= == // operators
            "#,
    );
    assert!(tokens.is_ok());
    let tokens = tokens.unwrap();
    let walker_expected = vec![
        (WalkerType::LeftParen, 2),
        (WalkerType::LeftParen, 2),
        (WalkerType::RightParen, 2),
        (WalkerType::RightParen, 2),
        (WalkerType::LeftBrace, 2),
        (WalkerType::RightBrace, 2),
        (WalkerType::Bang, 3),
        (WalkerType::Star, 3),
        (WalkerType::Plus, 3),
        (WalkerType::Minus, 3),
        (WalkerType::Slash, 3),
        (WalkerType::Equal, 3),
        (WalkerType::Less, 3),
        (WalkerType::Greater, 3),
        (WalkerType::LessEqual, 3),
        (WalkerType::EqualEqual, 3),
        (WalkerType::Eof, 4),
    ];
    let walker_expected: Vec<WalkerToken> = walker_expected
        .into_iter()
        .map(|(token_type, line)| WalkerToken { token_type, line })
        .collect();
    assert_eq!(tokens, walker_expected);
}

#[test]
fn test_number_canonical_text() {
    let tokens = scan_tokens("007.250 10.0").unwrap();
    assert_eq!(
        tokens,
        one_liner(vec![WalkerType::Number("7.25".to_string()), WalkerType::Number("10".to_string())])
    );
}

#[test]
fn test_unterminated_string_is_an_error_with_its_line() {
    let errors = scan_tokens("\n\"abc").unwrap_err();
    assert_eq!(errors.len(), 1);
    assert_eq!(errors[0].line, 2);
}

#[test]
fn test_scan_error_keeps_the_line_count() {
    let mut scanner = Scanner::new("%\n(");
    let err = scanner.scan_token().unwrap_err();
    assert_eq!(err.line, 1);
    assert_eq!(scanner.scan_token().unwrap(), TokenType::LeftParen.to_token(2, "("));
}

#[test]
fn test_token_before_newline_keeps_its_line() {
    let tokens = scan_to_completion("a\nb").expect("scan error");
    assert_eq!(
        tokens,
        vec![
            Token { token_type: TokenType::Identifier, line: 1, lexeme: "a" },
            Token { token_type: TokenType::Identifier, line: 2, lexeme: "b" },
            Token { token_type: TokenType::Eof, line: 2, lexeme: "" },
        ]
    );
    let tokens = scan_to_completion("12\n\"s\"\n").expect("scan error");
    assert_eq!(tokens[0].line, 1);
    assert_eq!(tokens[1].line, 2);
    assert_eq!(tokens[2].line, 3);
}

#[test]
fn test_scan_error_text_and_newline_count() {
    let e = ScanError { line: 12, message: "Unexpected character.".to_string() };
    assert_eq!(e.text(), "[Scan Error line: 12] Unexpected character.");
    assert_eq!(count_newlines("a\nb\n\nc"), 3);
    assert_eq!(count_newlines(""), 0);
}
