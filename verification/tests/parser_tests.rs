use monkey_front::ast::{Node, Statement};
use monkey_front::lexer::Lexer;
use monkey_front::parser::Parser;

#[test]
fn let_statements() {
    let input = r#"
            let x = 5;
            let y = 10;
            let foobar = 838383;
        "#;

    let mut parser = Parser::new(Lexer::new(input));

    let program = parser.parser_program();
    assert!(program.is_some());

    let program = program.unwrap();
    assert_eq!(
        program.statements.len(),
        3,
        "program.statements does not contain 3 statements, got={}",
        program.statements.len()
    );

    let tests = vec![{ "x" }, { "y" }, { "foobar" }];

    for (index, &test) in tests.iter().enumerate() {
        let stmt = &program.statements[index];
        test_let_statement(stmt, test);
    }
}

fn test_let_statement(s: &Statement, name: &str) {
    let Statement::Let(let_stmt) = s;

    assert_eq!(
        let_stmt.token_literal(),
        "let",
        "s.token_literal not 'let'. got={}",
        let_stmt.token_literal()
    );

    assert_eq!(
        let_stmt.name.value, name,
        "let_stmt.name.value not '{name}', got={}",
        let_stmt.name.value
    );

    assert_eq!(
        let_stmt.name.token_literal(),
        name,
        "let_stmt.name.token_literal() not '{name}'. got={}",
        let_stmt.name.token_literal()
    );
}

#[test]
fn let_statement_keeps_placeholder_value() {
    let mut parser = Parser::new(Lexer::new("let x = 5;"));
    let program = parser.parser_program().unwrap();
    assert_eq!(program.statements.len(), 1);
    let Statement::Let(let_stmt) = &program.statements[0];
    assert!(let_stmt.value.is_none());
    assert_eq!(let_stmt.token.literal, "let");
}

#[test]
fn missing_identifier_fails_whole_parse() {
    let mut parser = Parser::new(Lexer::new("let 5 = 10;"));
    assert!(parser.parser_program().is_none());
}

#[test]
fn missing_assignment_fails_whole_parse() {
    let mut parser = Parser::new(Lexer::new("let x 5;"));
    assert!(parser.parser_program().is_none());
}

#[test]
fn later_failure_rejects_earlier_statements_too() {
    let mut parser = Parser::new(Lexer::new("let x = 5; let = 10;"));
    assert!(parser.parser_program().is_none());
}

#[test]
fn statement_kind_without_rule_fails() {
    let mut parser = Parser::new(Lexer::new("5;"));
    assert!(parser.parser_program().is_none());
}

#[test]
fn missing_semicolon_fails_whole_parse() {
    let mut parser = Parser::new(Lexer::new("let x = 5"));
    assert!(parser.parser_program().is_none());
}

#[test]
fn empty_input_parses_to_empty_program() {
    let mut parser = Parser::new(Lexer::new(""));
    let program = parser.parser_program().unwrap();
    assert_eq!(program.statements.len(), 0);
    assert_eq!(program.token_literal(), "");
}

#[test]
fn program_token_literal_is_first_statement_literal() {
    let mut parser = Parser::new(Lexer::new("let answer = 42;"));
    let program = parser.parser_program().unwrap();
    assert_eq!(program.token_literal(), "let");
}
