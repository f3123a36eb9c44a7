use rlox::ast::{Expression, TokenLiteral};
use rlox::floats::{FloatOp, FloatOperand, FloatRequest, FloatUnit, Floats};
use rlox::interpreter::Interpreter;
use rlox::parser::Parser;
use rlox::stmt::Statement;

/// The float unit of the machine that runs the tests.
struct Host;

fn double(operand: &FloatOperand) -> f64 {
    match operand {
        FloatOperand::Bits(b) => f64::from_bits(*b),
        FloatOperand::Integer(i) => *i as f64,
    }
}

impl FloatUnit for Host {
    fn compute(&self, request: &FloatRequest) -> u64 {
        let value = match request {
            FloatRequest::Literal(text) => text.parse::<f64>().unwrap_or_default(),
            FloatRequest::Promote(i) => *i as f64,
            FloatRequest::Binary(op, lhs, rhs) => match op {
                FloatOp::Add => double(lhs) + double(rhs),
                FloatOp::Sub => double(lhs) - double(rhs),
                FloatOp::Mul => double(lhs) * double(rhs),
                FloatOp::Div => double(lhs) / double(rhs),
                FloatOp::Pow => match rhs {
                    FloatOperand::Integer(i) => double(lhs).powi(*i as i32),
                    FloatOperand::Bits(b) => double(lhs).powf(f64::from_bits(*b)),
                },
            },
        };
        value.to_bits()
    }

    fn render(&self, bits: u64) -> String {
        f64::from_bits(bits).to_string()
    }
}

fn evaluate_constant(source: &str) -> TokenLiteral {
    let mut parser = Parser::new();
    let stmts = parser.load(source.to_string(), &mut Floats::new(Host)).expect("Failed to parse");
    assert_eq!(stmts.len(), 1);
    match &stmts[0] {
        Statement::Expression(expr) => expr.evaluate(&mut Floats::new(Host)).expect("Failed to evaluate"),
        other => panic!("unexpected stmt {:?}", other),
    }
}

fn run(source: &str) -> Interpreter {
    let mut parser = Parser::new();
    let stmts = parser.load(source.to_string(), &mut Floats::new(Host)).expect("failed to parse");
    assert!(!parser.had_error, "{:?}", parser.diagnostics);
    let mut interpreter = Interpreter::new();
    interpreter.interpret(stmts, &mut Floats::new(Host));
    interpreter
}

#[test]
fn print() {
    let mut parser = Parser::new();
    match parser.load("print 1;\nprint 'two';\nprint 1 + 2;\nprint nil;\n".to_string(), &mut Floats::new(Host)) {
        Ok(stmts) => {
            assert_eq!(stmts.len(), 4);
        }
        Err(e) => {
            panic!("{:?}", e);
        }
    }
}

#[test]
fn variables() {
    let mut parser = Parser::new();
    let mut interpreter = Interpreter::new();
    match parser.load("var a = 1;\nvar b = a + 1;\nvar c;\nb = b * 2;\n".to_string(), &mut Floats::new(Host)) {
        Ok(stmts) => {
            interpreter.interpret(stmts, &mut Floats::new(Host));
            assert!(!parser.scanner.had_error);
        }
        Err(e) => {
            panic!("{:?}", e);
        }
    }
    assert_eq!(interpreter.get_var("b"), Some(TokenLiteral::Integer(4)));
    assert_eq!(interpreter.get_var("c"), Some(TokenLiteral::Empty));
}

#[test]
fn exponent() {
    let mut parser = Parser::new();
    match parser.load("5**5;".to_string(), &mut Floats::new(Host)) {
        Ok(stmts) => {
            assert_eq!(stmts.len(), 1);
            let stmt = stmts.first().unwrap();
            if let Statement::Expression(expr) = stmt {
                let intr = expr.evaluate(&mut Floats::new(Host)).expect("Failed to evaluate");
                assert_eq!(TokenLiteral::Integer(3125), intr);
            }
        }
        Err(e) => {
            panic!("{:?}", e);
        }
    }
}

#[test]
fn mul() {
    let mut parser = Parser::new();
    match parser.load("5*5;".to_string(), &mut Floats::new(Host)) {
        Ok(stmts) => {
            assert_eq!(stmts.len(), 1);
            let stmt = stmts.first().unwrap();
            if let Statement::Expression(expr) = stmt {
                let intr = expr.evaluate(&mut Floats::new(Host)).expect("Failed to evaluate");
                assert_eq!(TokenLiteral::Integer(25), intr);
            }
        }
        Err(e) => {
            panic!("{:?}", e);
        }
    }
}

#[test]
fn add() {
    let mut parser = Parser::new();
    match parser.load("5+5;".to_string(), &mut Floats::new(Host)) {
        Ok(stmts) => {
            assert_eq!(stmts.len(), 1);
            let stmt = stmts.first().unwrap();
            if let Statement::Expression(expr) = stmt {
                let intr = expr.evaluate(&mut Floats::new(Host)).expect("Failed to evaluate");
                assert_eq!(TokenLiteral::Integer(10), intr);
            }
        }
        Err(e) => {
            panic!("{:?}", e);
        }
    }
}

#[test]
fn sub() {
    let mut parser = Parser::new();
    match parser.load("5-5;".to_string(), &mut Floats::new(Host)) {
        Ok(stmts) => {
            assert_eq!(stmts.len(), 1);
            let stmt = stmts.first().unwrap();
            if let Statement::Expression(expr) = stmt {
                let intr = expr.evaluate(&mut Floats::new(Host)).expect("Failed to evaluate");
                assert_eq!(TokenLiteral::Integer(0), intr);
            }
        }
        Err(e) => {
            panic!("{:?}", e);
        }
    }
}

#[test]
fn str() {
    let mut parser = Parser::new();
    match parser.load("'test';".to_string(), &mut Floats::new(Host)) {
        Ok(stmts) => {
            assert_eq!(stmts.len(), 1);
            let stmt = stmts.first().unwrap();
            if let Statement::Expression(expr) = stmt {
                let intr = expr.evaluate(&mut Floats::new(Host)).expect("Failed to evaluate");
                assert_eq!(TokenLiteral::String("test".to_string()), intr);
            }
        }
        Err(e) => {
            panic!("{:?}", e);
        }
    }
}

#[test]
fn str_concat() {
    let mut parser = Parser::new();
    match parser.load("'Hello' + ' ' + 'World!';".to_string(), &mut Floats::new(Host)) {
        Ok(stmts) => {
            assert_eq!(stmts.len(), 1);
            let stmt = stmts.first().unwrap();
            if let Statement::Expression(expr) = stmt {
                let intr = expr.evaluate(&mut Floats::new(Host)).expect("Failed to evaluate");
                assert_eq!(TokenLiteral::String("Hello World!".to_string()), intr);
            }
        }
        Err(e) => {
            panic!("{:?}", e);
        }
    }
}

#[test]
fn str_plus_num() {
    let mut parser = Parser::new();

    match parser.load("'Hello' + 5;".to_string(), &mut Floats::new(Host)) {
        Ok(stmts) => {
            assert_eq!(stmts.len(), 1);
            let stmt = stmts.first().unwrap();
            if let Statement::Expression(expr) = stmt {
                let intr = expr.evaluate(&mut Floats::new(Host)).expect("Failed to evaluate");
                assert_eq!(TokenLiteral::String("Hello5".to_string()), intr);
            }
        }
        Err(e) => {
            panic!("{:?}", e);
        }
    }

    match parser.load("1 + 'Hello' + 5;".to_string(), &mut Floats::new(Host)) {
        Ok(stmts) => {
            assert_eq!(stmts.len(), 1);
            let stmt = stmts.first().unwrap();
            if let Statement::Expression(expr) = stmt {
                let intr = expr.evaluate(&mut Floats::new(Host)).expect("Failed to evaluate");
                assert_eq!(TokenLiteral::String("1Hello5".to_string()), intr);
            }
        }
        Err(e) => {
            panic!("{:?}", e);
        }
    }
}

#[test]
fn function_call() {
    let mut parser = Parser::new();
    let stmts = parser
        .load("fun add(a, b){ return a + b; } add(1, 2);".to_string(), &mut Floats::new(Host))
        .expect("failed to parse");
    let mut interpreter = Interpreter::new();
    // first statement defines the function
    interpreter.interpret(vec![stmts[0].clone()], &mut Floats::new(Host));
    if let Statement::Expression(expr) = &stmts[1] {
        let val = interpreter.evaluate(expr, &mut Floats::new(Host)).expect("failed to eval");
        assert_eq!(TokenLiteral::Integer(3), val);
    } else {
        panic!("unexpected statement");
    }
}

#[test]
fn while_loop() {
    let mut parser = Parser::new();
    let stmts = parser
        .load("var a = 0; while (a < 3) { a = a + 1; }".to_string(), &mut Floats::new(Host))
        .expect("failed to parse");
    let mut interpreter = Interpreter::new();
    interpreter.interpret(stmts, &mut Floats::new(Host));
    assert_eq!(interpreter.get_var("a"), Some(TokenLiteral::Integer(3)));
}

#[test]
fn integer_operators_follow_the_table() {
    assert_eq!(evaluate_constant("7 + 3;"), TokenLiteral::Integer(10));
    assert_eq!(evaluate_constant("7 - 10;"), TokenLiteral::Integer(-3));
    assert_eq!(evaluate_constant("7 * 3;"), TokenLiteral::Integer(21));
    assert_eq!(evaluate_constant("2 ** 10;"), TokenLiteral::Integer(1024));
    assert_eq!(evaluate_constant("2 ^ 3;"), TokenLiteral::Integer(8));
    assert_eq!(evaluate_constant("7 ** 0;"), TokenLiteral::Integer(1));
    assert_eq!(evaluate_constant("5 / 5;"), TokenLiteral::Float(1.0f64.to_bits()));
    assert_eq!(evaluate_constant("7 / 2;"), TokenLiteral::Float(3.5f64.to_bits()));
}

#[test]
fn precedence_and_grouping() {
    assert_eq!(evaluate_constant("1 + 2 * 3;"), TokenLiteral::Integer(7));
    assert_eq!(evaluate_constant("(1 + 2) * 3;"), TokenLiteral::Integer(9));
    assert_eq!(evaluate_constant("10 - 2 - 3;"), TokenLiteral::Integer(5));
    assert_eq!(evaluate_constant("-3 + 5;"), TokenLiteral::Integer(2));
    assert_eq!(evaluate_constant("1 + 2 < 4;"), TokenLiteral::Boolean(true));
    assert_eq!(evaluate_constant("1 < 2 == true;"), TokenLiteral::Boolean(true));
}

#[test]
fn not_of_zero_is_true() {
    assert_eq!(evaluate_constant("!(0);"), TokenLiteral::Boolean(true));
    assert_eq!(evaluate_constant("!0;"), TokenLiteral::Boolean(true));
    assert_eq!(evaluate_constant("!1;"), TokenLiteral::Boolean(false));
    assert_eq!(evaluate_constant("!'';"), TokenLiteral::Boolean(false));
    assert_eq!(evaluate_constant("!nil;"), TokenLiteral::Boolean(true));
    assert_eq!(evaluate_constant("!0.0;"), TokenLiteral::Boolean(true));
    assert_eq!(evaluate_constant("!0.5;"), TokenLiteral::Boolean(false));
}

#[test]
fn float_arithmetic_goes_to_the_unit() {
    assert_eq!(evaluate_constant("1.5 + 2;"), TokenLiteral::Float(3.5f64.to_bits()));
    assert_eq!(evaluate_constant("2 - 0.5;"), TokenLiteral::Float(1.5f64.to_bits()));
    assert_eq!(evaluate_constant("1.5 * 1.5;"), TokenLiteral::Float(2.25f64.to_bits()));
    assert_eq!(evaluate_constant("2.0 ** 3;"), TokenLiteral::Float(8.0f64.to_bits()));
    assert_eq!(evaluate_constant("4.0 ** 0.5;"), TokenLiteral::Float(2.0f64.to_bits()));
    assert_eq!(evaluate_constant("2 ** 0.5;"), TokenLiteral::Empty);
    assert_eq!(evaluate_constant("1.5 + 'x';"), TokenLiteral::String("1.5x".to_string()));
    assert_eq!(evaluate_constant("'x' + 2.5;"), TokenLiteral::String("x2.5".to_string()));
}

#[test]
fn comparisons_and_equality() {
    assert_eq!(evaluate_constant("1 < 2;"), TokenLiteral::Boolean(true));
    assert_eq!(evaluate_constant("2 <= 2;"), TokenLiteral::Boolean(true));
    assert_eq!(evaluate_constant("1 > 2;"), TokenLiteral::Boolean(false));
    assert_eq!(evaluate_constant("3 >= 4;"), TokenLiteral::Boolean(false));
    assert_eq!(evaluate_constant("1.5 < 2;"), TokenLiteral::Empty);
    assert_eq!(evaluate_constant("1 == 1;"), TokenLiteral::Boolean(true));
    assert_eq!(evaluate_constant("1 != 1;"), TokenLiteral::Boolean(false));
    assert_eq!(evaluate_constant("1 == 1.0;"), TokenLiteral::Boolean(true));
    assert_eq!(evaluate_constant("1.5 == 1;"), TokenLiteral::Boolean(false));
    assert_eq!(evaluate_constant("0.0 == 0.0;"), TokenLiteral::Boolean(true));
    assert_eq!(evaluate_constant("'a' == 'a';"), TokenLiteral::Boolean(true));
    assert_eq!(evaluate_constant("'a' == 'b';"), TokenLiteral::Boolean(false));
    assert_eq!(evaluate_constant("'1' == 1;"), TokenLiteral::Boolean(false));
    assert_eq!(evaluate_constant("true == true;"), TokenLiteral::Boolean(true));
    assert_eq!(evaluate_constant("nil == nil;"), TokenLiteral::Boolean(false));
    assert_eq!(evaluate_constant("nil != nil;"), TokenLiteral::Boolean(true));
}

#[test]
fn operators_fail_on_what_they_do_not_take() {
    let cases = [
        "'a' - 1;",
        "1 * 'a';",
        "true + 1;",
        "nil / 2;",
        "'a' ** 2;",
        "'a' < 1;",
        "-'a';",
        "-1.5;",
        "2 ** -1;",
        "9223372036854775807 + 1;",
        "9223372036854775807 * 2;",
        "3 ** 40;",
    ];
    for source in cases {
        let mut parser = Parser::new();
        let stmts = parser.load(source.to_string(), &mut Floats::new(Host)).expect("failed to parse");
        assert_eq!(stmts.len(), 1, "{}", source);
        match &stmts[0] {
            Statement::Expression(expr) => {
                assert_eq!(
                    expr.evaluate(&mut Floats::new(Host)),
                    Err(rlox::ast::ParserError::UnsupportedAction),
                    "{}",
                    source
                );
            }
            other => panic!("unexpected stmt {:?}", other),
        }
    }
}

#[test]
fn constant_evaluation_knows_no_assignment_or_call() {
    let mut parser = Parser::new();
    let stmts = parser.load("a = 1; f(); a and b;".to_string(), &mut Floats::new(Host)).expect("failed to parse");
    assert_eq!(stmts.len(), 3);
    for stmt in &stmts {
        match stmt {
            Statement::Expression(expr) => {
                assert_eq!(expr.evaluate(&mut Floats::new(Host)), Err(rlox::ast::ParserError::UnsupportedAction));
            }
            other => panic!("unexpected stmt {:?}", other),
        }
    }
    // A name stands for the literal of its token.
    assert_eq!(evaluate_constant("abc;"), TokenLiteral::String("abc".to_string()));
}

#[test]
fn print_writes_lines_in_order() {
    let interpreter = run("print 1 + 1; print 'two'; print true; print nil; var x = 2.5; print x;");
    assert_eq!(
        interpreter.output(),
        &vec![
            "2".to_string(),
            "two".to_string(),
            "true".to_string(),
            "".to_string(),
            "2.5".to_string()
        ]
    );
    assert!(interpreter.notes().is_empty());
}

#[test]
fn taking_the_output_empties_it() {
    let mut interpreter = run("print 1; print 2;");
    assert_eq!(interpreter.take_output(), vec!["1".to_string(), "2".to_string()]);
    assert!(interpreter.output().is_empty());
    assert!(interpreter.take_output().is_empty());
    assert!(interpreter.take_notes().is_empty());
}

#[test]
fn blocks_scope_their_variables() {
    let interpreter = run("var a = 1; { var a = 2; var b = 3; print a; } print a;");
    assert_eq!(interpreter.output(), &vec!["2".to_string(), "1".to_string()]);
    assert_eq!(interpreter.get_var("a"), Some(TokenLiteral::Integer(1)));
    assert_eq!(interpreter.get_var("b"), None);
}

#[test]
fn assignment_reaches_the_scope_that_holds_the_name() {
    let interpreter = run("var a = 1; { { a = 5; } }");
    assert_eq!(interpreter.get_var("a"), Some(TokenLiteral::Integer(5)));
}

#[test]
fn assignment_to_an_unknown_name_creates_a_global() {
    let interpreter = run("{ { fresh = 7; } }");
    assert_eq!(interpreter.get_var("fresh"), Some(TokenLiteral::Integer(7)));
    let interpreter = run("fun f() { made = 'inside'; } f();");
    assert_eq!(interpreter.get_var("made"), Some(TokenLiteral::String("inside".to_string())));
}

#[test]
fn a_name_that_is_not_bound_is_its_own_text() {
    let interpreter = run("print nothing;");
    assert_eq!(interpreter.output(), &vec!["nothing".to_string()]);
}

#[test]
fn if_takes_one_branch() {
    let interpreter = run("if (1 < 2) print 'yes'; else print 'no'; if (0) print 'never';");
    assert_eq!(interpreter.output(), &vec!["yes".to_string()]);
    let interpreter = run("if (nil) print 'yes'; else print 'no';");
    assert_eq!(interpreter.output(), &vec!["no".to_string()]);
}

#[test]
fn logical_operators_short_circuit() {
    let interpreter = run("var a = 0; var r = true or (a = 1); var s = false and (a = 2);");
    assert_eq!(interpreter.get_var("a"), Some(TokenLiteral::Integer(0)));
    assert_eq!(interpreter.get_var("r"), Some(TokenLiteral::Boolean(true)));
    assert_eq!(interpreter.get_var("s"), Some(TokenLiteral::Boolean(false)));
    let interpreter = run("var a = 0; var r = false or (a = 1); var s = true and (a = 2);");
    assert_eq!(interpreter.get_var("a"), Some(TokenLiteral::Integer(2)));
    assert_eq!(interpreter.get_var("r"), Some(TokenLiteral::Integer(1)));
    assert_eq!(interpreter.get_var("s"), Some(TokenLiteral::Integer(2)));
}

#[test]
fn for_loop_runs_as_a_while_loop() {
    let interpreter = run("for (var i = 0; i < 3; i = i + 1) print i;");
    assert_eq!(
        interpreter.output(),
        &vec!["0".to_string(), "1".to_string(), "2".to_string()]
    );
    // The loop variable lived in the block of the loop.
    assert_eq!(interpreter.get_var("i"), None);
}

#[test]
fn functions_return_and_recurse() {
    let interpreter = run(
        "fun fact(n) { if (n < 2) return 1; return n * fact(n - 1); } var r = fact(10);",
    );
    assert_eq!(interpreter.get_var("r"), Some(TokenLiteral::Integer(3628800)));
    let interpreter = run("fun nothing() { 1 + 1; } var r = nothing();");
    assert_eq!(interpreter.get_var("r"), Some(TokenLiteral::Empty));
}

#[test]
fn return_unwinds_blocks_and_loops() {
    let interpreter = run(
        "fun first(n) { var i = 0; while (true) { { if (i == n) return i; } i = i + 1; } } var r = first(4);",
    );
    assert_eq!(interpreter.get_var("r"), Some(TokenLiteral::Integer(4)));
    assert_eq!(interpreter.get_var("i"), None);
}

#[test]
fn functions_see_globals_but_not_the_scope_of_the_caller() {
    let interpreter = run(
        "var g = 1; fun f() { return g + 1; } fun h() { var local = 5; return k(); } fun k() { return local; } var a = f(); var b = h();",
    );
    assert_eq!(interpreter.get_var("a"), Some(TokenLiteral::Integer(2)));
    // The scope of the caller is below that of the callee and is searched.
    assert_eq!(interpreter.get_var("b"), Some(TokenLiteral::Integer(5)));
}

#[test]
fn arguments_beyond_the_parameters_are_dropped() {
    let interpreter = run("fun f(a, b) { return a; } var r = f(1, 2, 3); var s = f(9);");
    assert_eq!(interpreter.get_var("r"), Some(TokenLiteral::Integer(1)));
    assert_eq!(interpreter.get_var("s"), Some(TokenLiteral::Integer(9)));
    // A parameter without an argument stays unbound, and is its own text.
    let interpreter = run("fun f(a, b) { return b; } var r = f(1);");
    assert_eq!(interpreter.get_var("r"), Some(TokenLiteral::String("b".to_string())));
}

#[test]
fn a_later_declaration_replaces_a_function() {
    let interpreter = run("fun f() { return 1; } fun f() { return 2; } var r = f();");
    assert_eq!(interpreter.get_var("r"), Some(TokenLiteral::Integer(2)));
}

#[test]
fn runtime_failures_are_noted_and_the_program_goes_on() {
    let mut parser = Parser::new();
    let stmts = parser
        .load("print 'a'; missing(); print 'b'; 1 - 'x'; (1)(2); print 'c';".to_string(), &mut Floats::new(Host))
        .expect("failed to parse");
    let mut interpreter = Interpreter::new();
    interpreter.interpret(stmts, &mut Floats::new(Host));
    assert_eq!(
        interpreter.output(),
        &vec!["a".to_string(), "b".to_string(), "c".to_string()]
    );
    assert_eq!(
        interpreter.notes(),
        &vec![
            "Unhandled runtime exception".to_string(),
            "Parser error: Unsupported Action".to_string(),
            "Unhandled runtime exception".to_string()
        ]
    );
}

#[test]
fn a_failure_inside_a_block_leaves_the_scope() {
    let mut interpreter = run("var a = 1; { var a = 2; missing(); } ");
    assert_eq!(interpreter.take_notes(), vec!["Unhandled runtime exception".to_string()]);
    assert_eq!(interpreter.get_var("a"), Some(TokenLiteral::Integer(1)));
    // What the block did before it failed stays done.
    let interpreter = run("var a = 1; { a = 2; missing(); a = 3; }");
    assert_eq!(interpreter.get_var("a"), Some(TokenLiteral::Integer(2)));
}

#[test]
fn the_limit_stops_a_runaway_loop() {
    let mut parser = Parser::new();
    let stmts = parser
        .load("var n = 0; while (true) { n = n + 1; } print 'after';".to_string(), &mut Floats::new(Host))
        .expect("failed to parse");
    let mut interpreter = Interpreter::new();
    interpreter.set_limit(10);
    interpreter.interpret(stmts, &mut Floats::new(Host));
    assert_eq!(interpreter.get_var("n"), Some(TokenLiteral::Integer(11)));
    assert_eq!(interpreter.notes(), &vec!["Unhandled runtime exception".to_string()]);
    assert_eq!(interpreter.output(), &vec!["after".to_string()]);
}

#[test]
fn the_limit_stops_a_runaway_recursion() {
    let mut parser = Parser::new();
    let stmts = parser
        .load("var depth = 0; fun f() { depth = depth + 1; f(); } f();".to_string(), &mut Floats::new(Host))
        .expect("failed to parse");
    let mut interpreter = Interpreter::new();
    interpreter.set_limit(5);
    interpreter.interpret(stmts, &mut Floats::new(Host));
    assert_eq!(interpreter.get_var("depth"), Some(TokenLiteral::Integer(5)));
    assert_eq!(interpreter.notes(), &vec!["Unhandled runtime exception".to_string()]);
}

#[test]
fn a_new_interpreter_is_empty() {
    for interpreter in [Interpreter::new(), Interpreter::default()] {
        assert!(interpreter.output().is_empty());
        assert!(interpreter.notes().is_empty());
        assert_eq!(interpreter.get_var("a"), None);
    }
}

#[test]
fn dump_leaves_a_note() {
    let interpreter = run("dump; { { dump; } }");
    assert_eq!(
        interpreter.notes(),
        &vec!["dump: scope depth 1".to_string(), "dump: scope depth 3".to_string()]
    );
}

#[test]
fn return_at_the_top_ends_its_statement_only() {
    let interpreter = run("return 1; print 'next';");
    assert_eq!(interpreter.output(), &vec!["next".to_string()]);
    assert!(interpreter.notes().is_empty());
}

#[test]
fn evaluate_reads_and_writes_the_scopes() {
    let mut interpreter = run("var a = 4;");
    let name = rlox::ast::Token {
        token_type: rlox::ast::TokenType::IDENTIFIER,
        lexeme: "a".to_string(),
        literal: TokenLiteral::String("a".to_string()),
        line: 1,
    };
    let read = Expression::Variable(name.clone());
    assert_eq!(interpreter.evaluate(&read, &mut Floats::new(Host)), Ok(TokenLiteral::Integer(4)));
    let write = Expression::Assign {
        name,
        value: Box::new(Expression::Literal(TokenLiteral::Boolean(true))),
    };
    assert_eq!(interpreter.evaluate(&write, &mut Floats::new(Host)), Ok(TokenLiteral::Boolean(true)));
    assert_eq!(interpreter.get_var("a"), Some(TokenLiteral::Boolean(true)));
    assert_eq!(interpreter.evaluate(&Expression::Empty, &mut Floats::new(Host)), Ok(TokenLiteral::Empty));
}

#[test]
fn a_longer_program() {
    let source = "
        fun fib(n) {
            if (n < 2) return n;
            return fib(n - 1) + fib(n - 2);
        }
        fun repeat(text, times) {
            var out = '';
            for (var i = 0; i < times; i = i + 1) {
                out = out + text;
            }
            return out;
        }
        var total = 0;
        var i = 0;
        while (i <= 10) {
            if (fib(i) > 20 and fib(i) < 60) {
                total = total + fib(i);
            }
            i = i + 1;
        }
        print total;
        print repeat('ab', 3) + '!';
        print fib(15);
        print 2 ** 10 - 24 * 2;
        print 7 / 2;
        print (1 < 2) == true;
        print !(nil or 0);
    ";
    let interpreter = run(source);
    assert_eq!(
        interpreter.output(),
        &vec![
            "110".to_string(),
            "ababab!".to_string(),
            "610".to_string(),
            "976".to_string(),
            "3.5".to_string(),
            "true".to_string(),
            "true".to_string(),
        ]
    );
    assert!(interpreter.notes().is_empty());
    assert_eq!(interpreter.get_var("i"), Some(TokenLiteral::Integer(11)));
}
