use monkey_front::lexer::Lexer;
use monkey_front::token::{Token, TokenType};

fn helper_iter_item(expect_items: &[Token], lexer: &mut Lexer) {
    for (index, expect_token) in expect_items.iter().enumerate() {
        let actual_token = lexer.next_token();

        assert_eq!(
            actual_token.typee, expect_token.typee,
            "tests[{index}] - tokentype wrong. expected {:?}, got {:?}",
            expect_token.typee, actual_token.typee
        );

        assert_eq!(
            actual_token.literal, expect_token.literal,
            "tests[{index}] - literal wrong. expected {}, got {}",
            expect_token.literal, actual_token.literal
        );
    }
}

#[test]
fn next_token() {
    let input = r#"=+(){},;"#;

    let tests = vec![
        Token::new(TokenType::Assign, "="),
        Token::new(TokenType::Plus, "+"),
        Token::new(TokenType::Lparen, "("),
        Token::new(TokenType::Rparen, ")"),
        Token::new(TokenType::Lbrace, "{"),
        Token::new(TokenType::Rbrace, "}"),
        Token::new(TokenType::Comma, ","),
        Token::new(TokenType::Semicolon, ";"),
        Token::new(TokenType::Eof, "\0"),
    ];

    helper_iter_item(&tests, &mut Lexer::new(input));
}

fn expect_items_generator() -> Vec<Token> {
    vec![
        Token::new(TokenType::Let, "let"),
        Token::new(TokenType::Ident, "five"),
        Token::new(TokenType::Assign, "="),
        Token::new(TokenType::Int, "5"),
        Token::new(TokenType::Semicolon, ";"),
        Token::new(TokenType::Let, "let"),
        Token::new(TokenType::Ident, "ten"),
        Token::new(TokenType::Assign, "="),
        Token::new(TokenType::Int, "10"),
        Token::new(TokenType::Semicolon, ";"),
        Token::new(TokenType::Let, "let"),
        Token::new(TokenType::Ident, "add"),
        Token::new(TokenType::Assign, "="),
        Token::new(TokenType::Function, "fn"),
        Token::new(TokenType::Lparen, "("),
        Token::new(TokenType::Ident, "x"),
        Token::new(TokenType::Comma, ","),
        Token::new(TokenType::Ident, "y"),
        Token::new(TokenType::Rparen, ")"),
        Token::new(TokenType::Lbrace, "{"),
        Token::new(TokenType::Ident, "x"),
        Token::new(TokenType::Plus, "+"),
        Token::new(TokenType::Ident, "y"),
        Token::new(TokenType::Semicolon, ";"),
        Token::new(TokenType::Rbrace, "}"),
        Token::new(TokenType::Semicolon, ";"),
        Token::new(TokenType::Let, "let"),
        Token::new(TokenType::Ident, "result"),
        Token::new(TokenType::Assign, "="),
        Token::new(TokenType::Ident, "add"),
        Token::new(TokenType::Lparen, "("),
        Token::new(TokenType::Ident, "five"),
        Token::new(TokenType::Comma, ","),
        Token::new(TokenType::Ident, "ten"),
        Token::new(TokenType::Rparen, ")"),
        Token::new(TokenType::Semicolon, ";"),
        Token::new(TokenType::Bang, "!"),
        Token::new(TokenType::Minus, "-"),
        Token::new(TokenType::Slash, "/"),
        Token::new(TokenType::Asterisk, "*"),
        Token::new(TokenType::Int, "5"),
        Token::new(TokenType::Semicolon, ";"),
        Token::new(TokenType::Int, "5"),
        Token::new(TokenType::Lt, "<"),
        Token::new(TokenType::Int, "10"),
        Token::new(TokenType::Gt, ">"),
        Token::new(TokenType::Int, "5"),
        Token::new(TokenType::Semicolon, ";"),
        Token::new(TokenType::If, "if"),
        Token::new(TokenType::Lparen, "("),
        Token::new(TokenType::Int, "5"),
        Token::new(TokenType::Lt, "<"),
        Token::new(TokenType::Int, "10"),
        Token::new(TokenType::Rparen, ")"),
        Token::new(TokenType::Lbrace, "{"),
        Token::new(TokenType::Return, "return"),
        Token::new(TokenType::True, "true"),
        Token::new(TokenType::Semicolon, ";"),
        Token::new(TokenType::Rbrace, "}"),
        Token::new(TokenType::Else, "else"),
        Token::new(TokenType::Lbrace, "{"),
        Token::new(TokenType::Return, "return"),
        Token::new(TokenType::False, "false"),
        Token::new(TokenType::Semicolon, ";"),
        Token::new(TokenType::Rbrace, "}"),
        Token::new(TokenType::Int, "10"),
        Token::new(TokenType::Equal, "=="),
        Token::new(TokenType::Int, "10"),
        Token::new(TokenType::Semicolon, ";"),
        Token::new(TokenType::Int, "10"),
        Token::new(TokenType::NotEqual, "!="),
        Token::new(TokenType::Int, "9"),
        Token::new(TokenType::Semicolon, ";"),
        Token::new(TokenType::Eof, "\0"),
    ]
}

#[test]
fn extend_keyword_support() {
    let input = r#"
            let five = 5;
            let ten = 10;

            let add = fn(x, y) {
                x + y;
            };

            let result = add(five, ten);
            !-/*5;
            5 < 10 > 5;

            if (5 < 10) {
                return true;
            }else {
                return false;
            }

            10 == 10;
            10 != 9;
        "#;

    let tests = expect_items_generator();

    helper_iter_item(&tests, &mut Lexer::new(input));
}

#[test]
fn keyword_lookup_hits() {
    assert_eq!(Token::lookup_ident("fn"), TokenType::Function);
    assert_eq!(Token::lookup_ident("let"), TokenType::Let);
    assert_eq!(Token::lookup_ident("true"), TokenType::True);
    assert_eq!(Token::lookup_ident("false"), TokenType::False);
    assert_eq!(Token::lookup_ident("if"), TokenType::If);
    assert_eq!(Token::lookup_ident("else"), TokenType::Else);
    assert_eq!(Token::lookup_ident("return"), TokenType::Return);
}

#[test]
fn keyword_lookup_misses() {
    assert_eq!(Token::lookup_ident("foobar"), TokenType::Ident);
    assert_eq!(Token::lookup_ident("lets"), TokenType::Ident);
    assert_eq!(Token::lookup_ident("le"), TokenType::Ident);
    assert_eq!(Token::lookup_ident("Let"), TokenType::Ident);
    assert_eq!(Token::lookup_ident("fN"), TokenType::Ident);
    assert_eq!(Token::lookup_ident("returns"), TokenType::Ident);
    assert_eq!(Token::lookup_ident(""), TokenType::Ident);
    assert_eq!(Token::lookup_ident("_"), TokenType::Ident);
}

#[test]
fn combined_tokens_need_second_equals() {
    // `=` followed by something other than `=` stays a lone assignment
    let tests = vec![
        Token::new(TokenType::Assign, "="),
        Token::new(TokenType::Int, "5"),
        Token::new(TokenType::Eof, "\0"),
    ];
    helper_iter_item(&tests, &mut Lexer::new("=5"));

    // `!` followed by something other than `=` stays a lone bang
    let tests = vec![
        Token::new(TokenType::Bang, "!"),
        Token::new(TokenType::Int, "5"),
        Token::new(TokenType::Eof, "\0"),
    ];
    helper_iter_item(&tests, &mut Lexer::new("!5"));

    // whitespace between the two characters keeps them apart
    let tests = vec![
        Token::new(TokenType::Assign, "="),
        Token::new(TokenType::Assign, "="),
        Token::new(TokenType::Eof, "\0"),
    ];
    helper_iter_item(&tests, &mut Lexer::new("= ="));

    // immediately adjacent, they combine
    let tests = vec![
        Token::new(TokenType::Equal, "=="),
        Token::new(TokenType::NotEqual, "!="),
        Token::new(TokenType::Eof, "\0"),
    ];
    helper_iter_item(&tests, &mut Lexer::new("==!="));
}

#[test]
fn end_of_input_is_idempotent() {
    let mut lexer = Lexer::new("x");
    let tok = lexer.next_token();
    assert_eq!(tok.typee, TokenType::Ident);
    for _ in 0..5 {
        let tok = lexer.next_token();
        assert_eq!(tok.typee, TokenType::Eof);
        assert_eq!(tok.literal, "\0");
    }

    let mut empty = Lexer::new("");
    for _ in 0..5 {
        let tok = empty.next_token();
        assert_eq!(tok.typee, TokenType::Eof);
        assert_eq!(tok.literal, "\0");
    }
}

#[test]
fn illegal_character_does_not_abort() {
    let tests = vec![
        Token::new(TokenType::Illegal, "@"),
        Token::new(TokenType::Ident, "x"),
        Token::new(TokenType::Illegal, "#"),
        Token::new(TokenType::Int, "7"),
        Token::new(TokenType::Eof, "\0"),
    ];
    helper_iter_item(&tests, &mut Lexer::new("@x #7"));
}

#[test]
fn token_new_keeps_kind_and_literal() {
    let tok = Token::new(TokenType::Ident, "abc");
    assert_eq!(tok.typee, TokenType::Ident);
    assert_eq!(tok.literal, "abc");
}
