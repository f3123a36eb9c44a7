use rlox::ast::{Expression, TokenLiteral, TokenType};
use rlox::floats::{FloatRequest, FloatUnit, Floats};
use rlox::interpreter::Interpreter;
use rlox::parser::Parser;
use rlox::stmt::Statement;

/// A float unit for sources without floating-point arithmetic: it reads
/// literals and renders doubles, and computes nothing else.
struct Host;

impl FloatUnit for Host {
    fn compute(&self, request: &FloatRequest) -> u64 {
        match request {
            FloatRequest::Literal(text) => text.parse::<f64>().unwrap_or_default().to_bits(),
            FloatRequest::Promote(i) => (*i as f64).to_bits(),
            FloatRequest::Binary(..) => panic!("no arithmetic in these tests"),
        }
    }

    fn render(&self, bits: u64) -> String {
        f64::from_bits(bits).to_string()
    }
}

#[test]
fn parse() {
    let mut parser = Parser::new();
    parser
        .load("var a = 1;\nfun twice(n) { return n * 2; }\nprint twice(a);\n".to_string(), &mut Floats::new(Host))
        .expect("Failed to load file");
    parser.parse().expect("Failed to parse");
}

#[test]
fn var_declaration() {
    let mut parser = Parser::new();
    let stmts = parser
        .load("var a = 42;".to_string(), &mut Floats::new(Host))
        .expect("failed to parse var");
    assert_eq!(stmts.len(), 1);
    match &stmts[0] {
        Statement::Var(token, Some(Expression::Literal(TokenLiteral::Integer(n)))) => {
            assert_eq!(token.lexeme, "a");
            assert_eq!(*n, 42);
        }
        other => panic!("unexpected stmt {:?}", other),
    }
}

#[test]
fn identifier_expression() {
    let mut parser = Parser::new();
    let stmts = parser
        .load("print value;".to_string(), &mut Floats::new(Host))
        .expect("failed to parse print");
    assert_eq!(stmts.len(), 1);
    match &stmts[0] {
        Statement::Print(Expression::Variable(tok)) => assert_eq!(tok.lexeme, "value"),
        other => panic!("unexpected stmt {:?}", other),
    }
}

#[test]
fn function_declaration_and_call() {
    let mut parser = Parser::new();
    let stmts = parser
        .load("fun greet(a){ print a; } greet('hi');".to_string(), &mut Floats::new(Host))
        .expect("failed to parse");
    assert_eq!(stmts.len(), 2);
    match &stmts[0] {
        Statement::Function(name, params, body) => {
            assert_eq!(name.lexeme, "greet");
            assert_eq!(params.len(), 1);
            assert!(!body.is_empty());
        }
        other => panic!("unexpected stmt {:?}", other),
    }
    match &stmts[1] {
        Statement::Expression(Expression::Call { .. }) => {}
        other => panic!("unexpected stmt {:?}", other),
    }
}

#[test]
fn if_else_statement() {
    let mut parser = Parser::new();
    let stmts = parser
        .load("if (true) { print 1; } else { print 2; }".to_string(), &mut Floats::new(Host))
        .expect("failed to parse");
    assert_eq!(stmts.len(), 1);
    match &stmts[0] {
        Statement::If(_, _, Some(_)) => {}
        other => panic!("unexpected stmt {:?}", other),
    }
}

#[test]
fn a_new_parser_is_empty() {
    let parser = Parser::new();
    assert_eq!(parser.current, 0);
    assert_eq!(parser.line, 1);
    assert!(parser.statements.is_empty());
    assert!(!parser.had_error);
    assert!(parser.diagnostics.is_empty());
    assert!(parser.scanner.tokens.is_empty());
    let parser = Parser::default();
    assert_eq!(parser.line, 0);
}

#[test]
fn statements_add_up_over_loads() {
    let mut parser = Parser::new();
    let first = parser.load("var a = 1;".to_string(), &mut Floats::new(Host)).expect("failed to parse");
    assert_eq!(first.len(), 1);
    let second = parser.load("print a; print a;".to_string(), &mut Floats::new(Host)).expect("failed to parse");
    assert_eq!(second.len(), 2);
    assert_eq!(parser.statements.len(), 3);
    assert_eq!(parser.scanner.tokens.len(), 11);
    assert_eq!(parser.current, 11);
}

#[test]
fn binary_operators_associate_to_the_left() {
    let mut parser = Parser::new();
    let stmts = parser.load("1 - 2 - 3;".to_string(), &mut Floats::new(Host)).expect("failed to parse");
    match &stmts[0] {
        Statement::Expression(Expression::Binary { left, operator, right }) => {
            assert_eq!(operator.token_type, TokenType::MINUS);
            assert!(matches!(**right, Expression::Literal(TokenLiteral::Integer(3))));
            match &**left {
                Expression::Binary { left, right, .. } => {
                    assert!(matches!(**left, Expression::Literal(TokenLiteral::Integer(1))));
                    assert!(matches!(**right, Expression::Literal(TokenLiteral::Integer(2))));
                }
                other => panic!("unexpected expression {:?}", other),
            }
        }
        other => panic!("unexpected stmt {:?}", other),
    }
}

#[test]
fn factor_binds_tighter_than_term() {
    let mut parser = Parser::new();
    let stmts = parser.load("1 + 2 * 3;".to_string(), &mut Floats::new(Host)).expect("failed to parse");
    match &stmts[0] {
        Statement::Expression(Expression::Binary { left, operator, right }) => {
            assert_eq!(operator.token_type, TokenType::PLUS);
            assert!(matches!(**left, Expression::Literal(TokenLiteral::Integer(1))));
            assert!(matches!(**right, Expression::Binary { .. }));
        }
        other => panic!("unexpected stmt {:?}", other),
    }
}

#[test]
fn and_binds_tighter_than_or() {
    let mut parser = Parser::new();
    let stmts = parser.load("a or b and c;".to_string(), &mut Floats::new(Host)).expect("failed to parse");
    match &stmts[0] {
        Statement::Expression(Expression::Logical { left, operator, right }) => {
            assert_eq!(operator.token_type, TokenType::OR);
            assert!(matches!(**left, Expression::Variable(_)));
            match &**right {
                Expression::Logical { operator, .. } => {
                    assert_eq!(operator.token_type, TokenType::AND)
                }
                other => panic!("unexpected expression {:?}", other),
            }
        }
        other => panic!("unexpected stmt {:?}", other),
    }
}

#[test]
fn assignment_associates_to_the_right() {
    let mut parser = Parser::new();
    let stmts = parser.load("a = b = 1;".to_string(), &mut Floats::new(Host)).expect("failed to parse");
    match &stmts[0] {
        Statement::Expression(Expression::Assign { name, value }) => {
            assert_eq!(name.lexeme, "a");
            match &**value {
                Expression::Assign { name, value } => {
                    assert_eq!(name.lexeme, "b");
                    assert!(matches!(**value, Expression::Literal(TokenLiteral::Integer(1))));
                }
                other => panic!("unexpected expression {:?}", other),
            }
        }
        other => panic!("unexpected stmt {:?}", other),
    }
}

#[test]
fn unary_and_call_and_grouping() {
    let mut parser = Parser::new();
    let stmts = parser.load("!-f(1, 2)(3); (x);".to_string(), &mut Floats::new(Host)).expect("failed to parse");
    assert_eq!(stmts.len(), 2);
    match &stmts[0] {
        Statement::Expression(Expression::Unary { operator, right }) => {
            assert_eq!(operator.token_type, TokenType::BANG);
            match &**right {
                Expression::Unary { operator, right } => {
                    assert_eq!(operator.token_type, TokenType::MINUS);
                    match &**right {
                        Expression::Call { callee, arguments, paren } => {
                            assert_eq!(arguments.len(), 1);
                            assert_eq!(paren.token_type, TokenType::RIGHT_PAREN);
                            match &**callee {
                                Expression::Call { arguments, .. } => {
                                    assert_eq!(arguments.len(), 2)
                                }
                                other => panic!("unexpected expression {:?}", other),
                            }
                        }
                        other => panic!("unexpected expression {:?}", other),
                    }
                }
                other => panic!("unexpected expression {:?}", other),
            }
        }
        other => panic!("unexpected stmt {:?}", other),
    }
    assert!(matches!(&stmts[1], Statement::Expression(Expression::Grouping(_))));
}

#[test]
fn literals() {
    let mut parser = Parser::new();
    let stmts = parser
        .load("true; false; nil; 12; 'text'; 1.25;".to_string(), &mut Floats::new(Host))
        .expect("failed to parse");
    let expected = [
        TokenLiteral::Boolean(true),
        TokenLiteral::Boolean(false),
        TokenLiteral::Empty,
        TokenLiteral::Integer(12),
        TokenLiteral::String("text".to_string()),
        TokenLiteral::Float(1.25f64.to_bits()),
    ];
    assert_eq!(stmts.len(), expected.len());
    for (stmt, value) in stmts.iter().zip(expected.iter()) {
        match stmt {
            Statement::Expression(Expression::Literal(v)) => assert_eq!(v, value),
            other => panic!("unexpected stmt {:?}", other),
        }
    }
}

#[test]
fn for_becomes_a_block_with_a_while() {
    let mut parser = Parser::new();
    let stmts = parser
        .load("for (var i = 0; i < 3; i = i + 1) print i;".to_string(), &mut Floats::new(Host))
        .expect("failed to parse");
    assert_eq!(stmts.len(), 1);
    match &stmts[0] {
        Statement::Block(items) => {
            assert_eq!(items.len(), 2);
            assert!(matches!(&items[0], Statement::Var(_, Some(_))));
            match &items[1] {
                Statement::While(Expression::Binary { .. }, body) => match &**body {
                    Statement::Block(inner) => {
                        assert_eq!(inner.len(), 2);
                        assert!(matches!(&inner[0], Statement::Print(_)));
                        assert!(matches!(
                            &inner[1],
                            Statement::Expression(Expression::Assign { .. })
                        ));
                    }
                    other => panic!("unexpected stmt {:?}", other),
                },
                other => panic!("unexpected stmt {:?}", other),
            }
        }
        other => panic!("unexpected stmt {:?}", other),
    }
}

#[test]
fn for_without_clauses_loops_on_true() {
    let mut parser = Parser::new();
    let stmts = parser.load("for (;;) print 1;".to_string(), &mut Floats::new(Host)).expect("failed to parse");
    assert!(!parser.had_error);
    match &stmts[0] {
        Statement::While(Expression::Literal(TokenLiteral::Boolean(true)), body) => {
            assert!(matches!(**body, Statement::Print(_)))
        }
        other => panic!("unexpected stmt {:?}", other),
    }
}

#[test]
fn return_with_and_without_a_value() {
    let mut parser = Parser::new();
    let stmts = parser
        .load("fun f() { return; return 1; }".to_string(), &mut Floats::new(Host))
        .expect("failed to parse");
    match &stmts[0] {
        Statement::Function(_, params, body) => {
            assert!(params.is_empty());
            assert_eq!(body.len(), 2);
            match &body[0] {
                Statement::Return(keyword, None) => {
                    assert_eq!(keyword.token_type, TokenType::RETURN)
                }
                other => panic!("unexpected stmt {:?}", other),
            }
            assert!(matches!(&body[1], Statement::Return(_, Some(_))));
        }
        other => panic!("unexpected stmt {:?}", other),
    }
}

#[test]
fn while_and_dump_and_bare_var() {
    let mut parser = Parser::new();
    let stmts = parser
        .load("while (a) a = a - 1; dump; var b;".to_string(), &mut Floats::new(Host))
        .expect("failed to parse");
    assert_eq!(stmts.len(), 3);
    assert!(matches!(&stmts[0], Statement::While(_, _)));
    assert!(matches!(&stmts[1], Statement::Dump));
    assert!(matches!(&stmts[2], Statement::Var(_, None)));
}

#[test]
fn one_failure_is_one_report_and_the_rest_parses() {
    let mut parser = Parser::new();
    let stmts = parser
        .load("var 5 = 1; print 'later';".to_string(), &mut Floats::new(Host))
        .expect("failed to parse");
    assert!(parser.had_error);
    assert_eq!(
        parser.diagnostics,
        vec![
            "[line 1] Error at '5': Parser error: Generic Error(Expected variable name)"
                .to_string()
        ]
    );
    assert_eq!(stmts.len(), 1);
    assert!(matches!(&stmts[0], Statement::Print(_)));
    let mut interpreter = Interpreter::new();
    interpreter.interpret(stmts, &mut Floats::new(Host));
    assert_eq!(interpreter.output(), &vec!["later".to_string()]);
}

#[test]
fn each_failure_is_reported() {
    let mut parser = Parser::new();
    let stmts = parser
        .load("print ;\nvar ok = 1;\n(1 + ;\nprint ok;\n1 = 2;".to_string(), &mut Floats::new(Host))
        .expect("failed to parse");
    assert_eq!(
        parser.diagnostics,
        vec![
            "[line 1] Error at ';': Parser error: Generic Error(Expression Expected)".to_string(),
            "[line 3] Error at ';': Parser error: Generic Error(Expression Expected)".to_string(),
            "[line 5] Error at ';': Parser error: Generic Error(Invalid assignment target.)"
                .to_string(),
        ]
    );
    assert_eq!(stmts.len(), 2);
}

#[test]
fn recovery_stops_before_a_statement_keyword() {
    let mut parser = Parser::new();
    let stmts = parser
        .load("1 + + 2 3 4 print 'found';".to_string(), &mut Floats::new(Host))
        .expect("failed to parse");
    assert_eq!(parser.diagnostics.len(), 1);
    assert_eq!(stmts.len(), 1);
    assert!(matches!(&stmts[0], Statement::Print(_)));
}

#[test]
fn the_messages_of_the_grammar() {
    let cases = [
        ("print 1", "Expected ';' after expression."),
        ("1", "Expected ';' after expression."),
        ("(1;", "Expected ')' after expression."),
        ("f(1;", "Expect ')' after arguments."),
        ("var a = 1", "Expected ';' after variale declaration."),
        ("var;", "Expected variable name"),
        ("dump", "Expected ; after dump statement."),
        ("{ 1;", "Expected '}' after block."),
        ("if 1", "Expect '(' after 'if'."),
        ("if (1;", "Expect ')' after if condition."),
        ("while 1", "Expect '(' after 'while'."),
        ("while (1;", "Expect ')' after condition."),
        ("for 1", "Expect '(' after 'for'."),
        ("for (;1 1", "Expect ';' after loop condition."),
        ("for (;;1;", "Expect ')' after for clauses."),
        ("return 1", "Expect ';' after return value."),
        ("fun ;", "Expect function name."),
        ("fun f;", "Expect '(' after function name."),
        ("fun f(1", "Expect parameter name."),
        ("fun f(a;", "Expect ')' after parameters."),
        ("fun f();", "Expect '{' before function body."),
        ("1 = 2;", "Invalid assignment target."),
        (";", "Expression Expected"),
    ];
    for (source, message) in cases {
        let mut parser = Parser::new();
        let stmts = parser.load(source.to_string(), &mut Floats::new(Host)).expect("failed to parse");
        assert!(stmts.is_empty(), "{}", source);
        assert!(parser.had_error, "{}", source);
        assert_eq!(parser.diagnostics.len(), 1, "{}", source);
        assert!(
            parser.diagnostics[0].ends_with(&format!("Generic Error({})", message)),
            "{}: {}",
            source,
            parser.diagnostics[0]
        );
    }
}

#[test]
fn an_initializer_that_does_not_parse_fails_the_declaration() {
    let mut parser = Parser::new();
    let stmts = parser.load("var a = ; var b = 2;".to_string(), &mut Floats::new(Host)).expect("failed to parse");
    assert!(parser.had_error);
    assert_eq!(
        parser.diagnostics,
        vec!["[line 1] Error at ';': Parser error: Generic Error(Expression Expected)".to_string()]
    );
    assert_eq!(stmts.len(), 1);
    assert!(matches!(&stmts[0], Statement::Var(_, Some(_))));
}

#[test]
fn print_takes_any_expression() {
    let mut parser = Parser::new();
    let stmts = parser.load("print a + 1; print (a);".to_string(), &mut Floats::new(Host)).expect("failed to parse");
    assert!(!parser.had_error);
    assert!(matches!(&stmts[0], Statement::Print(Expression::Binary { .. })));
    assert!(matches!(&stmts[1], Statement::Print(Expression::Grouping(_))));
}

#[test]
fn comments_are_tokens_that_no_statement_takes() {
    let mut parser = Parser::new();
    let stmts = parser.load("// note\nprint 1;".to_string(), &mut Floats::new(Host)).expect("failed to parse");
    assert_eq!(parser.diagnostics.len(), 1);
    assert_eq!(stmts.len(), 1);
}

#[test]
fn the_cursor_of_the_parser() {
    let mut parser = Parser::new();
    parser.scanner.load("1 + 2".chars().collect(), &mut Floats::new(Host));
    assert!(!parser.is_at_end());
    assert!(parser.check(TokenType::NUMBER));
    assert!(!parser.check(TokenType::PLUS));
    assert_eq!(parser.peek().lexeme, "1");
    assert_eq!(parser.peek_next().lexeme, "1");
    assert_eq!(parser.previous().token_type, TokenType::EOF);
    assert!(!parser.consume_if_type(&[TokenType::PLUS, TokenType::MINUS]));
    assert!(parser.consume_if_type(&[TokenType::STRING, TokenType::NUMBER]));
    assert_eq!(parser.current, 1);
    assert_eq!(parser.previous().lexeme, "1");
    assert_eq!(parser.next().token_type, TokenType::PLUS);
    let failed = parser.consume(TokenType::STRING, "a string".to_string());
    assert_eq!(
        failed,
        Err(rlox::ast::LoxError::ParseError(rlox::ast::ParserError::Generic(
            "a string".to_string()
        )))
    );
    assert_eq!(parser.current, 2);
    let two = parser.consume(TokenType::NUMBER, "a number".to_string()).expect("a number");
    assert_eq!(two.literal, TokenLiteral::Integer(2));
    assert!(parser.is_at_end());
    assert_eq!(parser.next().token_type, TokenType::EOF);
    assert_eq!(parser.peek().token_type, TokenType::EOF);
    assert_eq!(parser.current, 3);
}

#[test]
fn the_levels_of_the_grammar_one_by_one() {
    let mut parser = Parser::new();
    parser.scanner.load("1 * 2 + 3 < 4 == 5 and 6 or 7".chars().collect(), &mut Floats::new(Host));
    assert!(matches!(parser.primary(), Ok(Expression::Literal(TokenLiteral::Integer(1)))));
    assert_eq!(parser.current, 1);
    parser.current = 0;
    assert!(parser.unary().is_ok());
    assert_eq!(parser.current, 1);
    parser.current = 0;
    assert!(parser.factor().is_ok());
    assert_eq!(parser.current, 3);
    parser.current = 0;
    assert!(parser.term().is_ok());
    assert_eq!(parser.current, 5);
    parser.current = 0;
    assert!(parser.comparison().is_ok());
    assert_eq!(parser.current, 7);
    parser.current = 0;
    assert!(parser.equality().is_ok());
    assert_eq!(parser.current, 9);
    parser.current = 0;
    assert!(parser.and().is_ok());
    assert_eq!(parser.current, 11);
    parser.current = 0;
    assert!(matches!(parser.or(), Ok(Expression::Logical { .. })));
    assert_eq!(parser.current, 13);
}

#[test]
fn err_reports_and_resynchronizes() {
    let mut parser = Parser::new();
    parser.scanner.load("a b ; c".chars().collect(), &mut Floats::new(Host));
    let token = parser.peek();
    parser.err(token, "wrong".to_string());
    assert!(parser.had_error);
    assert_eq!(parser.diagnostics, vec!["[line 1] Error at 'a': wrong".to_string()]);
    assert_eq!(parser.current, 3);
    parser.report(7, "somewhere".to_string(), "text".to_string());
    assert_eq!(parser.diagnostics[1], "[line 7] Error somewhere: text");
}

#[test]
fn a_parser_copies() {
    let mut parser = Parser::new();
    parser.load("var a = 1; print ; print a;".to_string(), &mut Floats::new(Host)).expect("loads");
    let mut copy = parser.clone();
    assert_eq!(copy.current, parser.current);
    assert_eq!(copy.statements.len(), parser.statements.len());
    assert_eq!(copy.diagnostics, parser.diagnostics);
    assert_eq!(copy.had_error, parser.had_error);
    assert_eq!(copy.scanner.tokens, parser.scanner.tokens);
    // The copy goes its own way.
    copy.load("print 2;".to_string(), &mut Floats::new(Host)).expect("loads");
    assert_eq!(copy.statements.len(), parser.statements.len() + 1);
}
