use pl0_lexer::error::LexError;
use pl0_lexer::lexer::lex;
use pl0_lexer::token::{Token, TokenType};

fn lex_test(test_str: &str, expected_token_type: TokenType) {
    assert_eq!(Ok(vec![Token(expected_token_type)]), lex(test_str.as_bytes()));
}

fn kinds(source: &[u8]) -> Vec<TokenType> {
    match lex(source) {
        Ok(tokens) => tokens.into_iter().map(|token| token.0).collect(),
        Err(error) => panic!("scan failed: {:?}", error),
    }
}

fn ident(text: &str) -> TokenType {
    TokenType::Ident(text.to_string())
}

#[test]
fn punctuation_parsing() {
    lex_test("#", TokenType::Hash);
    lex_test("<", TokenType::LessThan);
    lex_test(">", TokenType::GreaterThan);
    lex_test(">=", TokenType::GreaterThanEqual);
    lex_test("<=", TokenType::LessThanEqual);
    lex_test(":=", TokenType::Assign);
}

#[test]
fn digit_parsing() {
    lex_test("123456789", TokenType::Number(123456789));
    lex_test("0", TokenType::Number(0));
    lex_test(&u32::MAX.to_string(), TokenType::Number(u32::MAX));
}

#[test]
fn unsupported_number_representations() {
    let tokens = lex("3.14".as_bytes());
    assert_eq!(
        tokens,
        Ok(vec![
            Token(TokenType::Number(3)),
            Token(TokenType::Dot),
            Token(TokenType::Number(14))
        ])
    );

    let tokens = lex("0x1234abcd".as_bytes());
    assert_eq!(
        tokens,
        Ok(vec![
            Token(TokenType::Number(0)),
            Token(TokenType::Ident("x1234abcd".to_string())),
        ])
    );
}

#[test]
fn ident_parsing() {
    lex_test("foo", TokenType::Ident("foo".to_string()));
    lex_test("__dunder__", TokenType::Ident("__dunder__".to_string()));
    lex_test("sneaky_snake", TokenType::Ident("sneaky_snake".to_string()));
    lex_test("alphanum3r1c", TokenType::Ident("alphanum3r1c".to_string()));
    lex_test("var", TokenType::Ident("var".to_string()));
}

#[test]
fn stray_colon_is_a_malformed_operator() {
    assert_eq!(
        lex(": =".as_bytes()),
        Err(LexError::MalformedOperator { ch: ':', offset: 0 })
    );
    assert_eq!(
        lex(":".as_bytes()),
        Err(LexError::MalformedOperator { ch: ':', offset: 0 })
    );
    assert_eq!(
        lex("x :".as_bytes()),
        Err(LexError::MalformedOperator { ch: ':', offset: 2 })
    );
    assert_eq!(
        lex("x :\n= 1".as_bytes()),
        Err(LexError::MalformedOperator { ch: ':', offset: 2 })
    );
}

#[test]
fn empty_input_has_no_tokens() {
    assert_eq!(lex(b""), Ok(vec![]));
}

#[test]
fn every_single_character_token() {
    lex_test("#", TokenType::Hash);
    lex_test("+", TokenType::Plus);
    lex_test("-", TokenType::Minus);
    lex_test("*", TokenType::Multiply);
    lex_test("/", TokenType::Divide);
    lex_test("(", TokenType::LParen);
    lex_test(")", TokenType::RParen);
    lex_test(".", TokenType::Dot);
    lex_test(",", TokenType::Comma);
    lex_test(";", TokenType::SemiColon);
    lex_test("?", TokenType::Question);
    lex_test("!", TokenType::Exclamation);
    lex_test("=", TokenType::Equal);
}

#[test]
fn two_character_operators_take_the_longest_match() {
    assert_eq!(
        kinds(b"<=>"),
        vec![TokenType::LessThanEqual, TokenType::GreaterThan]
    );
    assert_eq!(kinds(b":=="), vec![TokenType::Assign, TokenType::Equal]);
    assert_eq!(
        kinds(b">=="),
        vec![TokenType::GreaterThanEqual, TokenType::Equal]
    );
    assert_eq!(kinds(b"<<="), vec![TokenType::LessThan, TokenType::LessThanEqual]);
    assert_eq!(kinds(b"< ="), vec![TokenType::LessThan, TokenType::Equal]);
    assert_eq!(kinds(b"<"), vec![TokenType::LessThan]);
    assert_eq!(kinds(b">"), vec![TokenType::GreaterThan]);
}

#[test]
fn lookahead_stops_at_the_end_of_input() {
    assert_eq!(kinds(b"x<"), vec![ident("x"), TokenType::LessThan]);
    assert_eq!(kinds(b"x>"), vec![ident("x"), TokenType::GreaterThan]);
    assert_eq!(
        lex(b"x:"),
        Err(LexError::MalformedOperator { ch: ':', offset: 1 })
    );
    assert_eq!(kinds(b"x1"), vec![ident("x1")]);
    assert_eq!(kinds(b"+1"), vec![TokenType::Plus, TokenType::Number(1)]);
}

#[test]
fn reserved_words_are_case_sensitive() {
    assert_eq!(kinds(b"BEGIN"), vec![TokenType::Begin]);
    assert_eq!(kinds(b"begin"), vec![ident("begin")]);
    assert_eq!(kinds(b"Begin"), vec![ident("Begin")]);
    assert_eq!(kinds(b"BEGINS"), vec![ident("BEGINS")]);
    assert_eq!(kinds(b"BEGIN1"), vec![ident("BEGIN1")]);
    assert_eq!(kinds(b"_BEGIN"), vec![ident("_BEGIN")]);
}

#[test]
fn every_reserved_word_is_its_own_token() {
    assert_eq!(
        kinds(b"CONST VAR PROCEDURE CALL BEGIN END IF THEN WHILE DO ODD"),
        vec![
            TokenType::Const,
            TokenType::Var,
            TokenType::Procedure,
            TokenType::Call,
            TokenType::Begin,
            TokenType::End,
            TokenType::If,
            TokenType::Then,
            TokenType::While,
            TokenType::Do,
            TokenType::Odd,
        ]
    );
}

#[test]
fn a_small_block() {
    assert_eq!(
        kinds(b"BEGIN x := 1 + 2 END"),
        vec![
            TokenType::Begin,
            ident("x"),
            TokenType::Assign,
            TokenType::Number(1),
            TokenType::Plus,
            TokenType::Number(2),
            TokenType::End,
        ]
    );
}

#[test]
fn a_whole_program() {
    let source = b"VAR x, squ;\n\nPROCEDURE square;\nBEGIN\n\tsqu := x * x\nEND;\n\nBEGIN\n\tx := 1;\n\tWHILE x <= 10 DO\n\tBEGIN\n\t\tCALL square;\n\t\t! squ;\n\t\tx := x + 1\n\tEND\nEND.\n";
    assert_eq!(
        kinds(source),
        vec![
            TokenType::Var,
            ident("x"),
            TokenType::Comma,
            ident("squ"),
            TokenType::SemiColon,
            TokenType::Procedure,
            ident("square"),
            TokenType::SemiColon,
            TokenType::Begin,
            ident("squ"),
            TokenType::Assign,
            ident("x"),
            TokenType::Multiply,
            ident("x"),
            TokenType::End,
            TokenType::SemiColon,
            TokenType::Begin,
            ident("x"),
            TokenType::Assign,
            TokenType::Number(1),
            TokenType::SemiColon,
            TokenType::While,
            ident("x"),
            TokenType::LessThanEqual,
            TokenType::Number(10),
            TokenType::Do,
            TokenType::Begin,
            TokenType::Call,
            ident("square"),
            TokenType::SemiColon,
            TokenType::Exclamation,
            ident("squ"),
            TokenType::SemiColon,
            ident("x"),
            TokenType::Assign,
            ident("x"),
            TokenType::Plus,
            TokenType::Number(1),
            TokenType::End,
            TokenType::End,
            TokenType::Dot,
        ]
    );
}

#[test]
fn numbers_and_words_meet_without_a_separator() {
    assert_eq!(kinds(b"12ab"), vec![TokenType::Number(12), ident("ab")]);
    assert_eq!(kinds(b"ab12"), vec![ident("ab12")]);
    assert_eq!(kinds(b"1_000"), vec![TokenType::Number(1), ident("_000")]);
    assert_eq!(kinds(b"_"), vec![ident("_")]);
    assert_eq!(
        kinds(b"-5"),
        vec![TokenType::Minus, TokenType::Number(5)]
    );
    assert_eq!(
        kinds(b"IF1THEN"),
        vec![ident("IF1THEN")]
    );
    assert_eq!(
        kinds(b"ODD(x)"),
        vec![TokenType::Odd, TokenType::LParen, ident("x"), TokenType::RParen]
    );
}

#[test]
fn a_long_input_is_scanned_whole() {
    let mut source = Vec::new();
    for _ in 0..5000 {
        source.extend_from_slice(b"x1 := 7;\n");
    }
    let tokens = kinds(&source);
    assert_eq!(tokens.len(), 20000);
    assert_eq!(tokens[0], ident("x1"));
    assert_eq!(tokens[19998], TokenType::Number(7));
    assert_eq!(tokens[19999], TokenType::SemiColon);
}

#[test]
fn tokens_can_be_compared_cloned_and_shown() {
    let token = TokenType::Ident("x".to_string());
    assert_eq!(token.clone(), token);
    assert_ne!(token, TokenType::Ident("y".to_string()));
    assert_ne!(TokenType::Number(1), TokenType::Number(2));
    assert_ne!(Token(TokenType::LessThan), Token(TokenType::LessThanEqual));
    assert_eq!(format!("{:?}", Token(TokenType::Number(7))), "Token(Number(7))");
    assert_eq!(
        format!("{:?}", Token(TokenType::Ident("x".to_string()))),
        "Token(Ident(\"x\"))"
    );
    assert_eq!(format!("{:?}", Token(TokenType::SemiColon)), "Token(SemiColon)");
}
