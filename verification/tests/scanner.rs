use rlox::ast::{keyword_token_type, LoxError, ParserError, Token, TokenLiteral, TokenType};
use rlox::floats::{FloatRequest, FloatUnit, Floats, float_is_nan, float_is_zero, floats_equal};
use rlox::scanner::Scanner;
use rlox::text::{chars_of, integer_of, integer_text, joined, natural_text, owned, text_of};

/// A float unit that reads literals with the machine's own parser.
struct Host;

impl FloatUnit for Host {
    fn compute(&self, request: &FloatRequest) -> u64 {
        match request {
            FloatRequest::Literal(text) => text.parse::<f64>().unwrap_or_default().to_bits(),
            FloatRequest::Promote(i) => (*i as f64).to_bits(),
            FloatRequest::Binary(..) => panic!("no arithmetic in these tests"),
        }
    }

    fn render(&self, bits: u64) -> String {
        f64::from_bits(bits).to_string()
    }
}

fn scan(source: &str) -> Scanner {
    let mut scanner = Scanner::default();
    scanner.load(source.chars().collect(), &mut Floats::new(Host));
    scanner
}

fn kinds(scanner: &Scanner) -> Vec<TokenType> {
    scanner.tokens.iter().map(|t| t.token_type).collect()
}

#[test]
fn scan_tokens() {
    let mut scanner = Scanner::default();
    assert_eq!(scanner.tokens.len(), 0); //These all should be default
    assert_eq!(scanner.source.len(), 0); //These all should be default
    assert_eq!(scanner.start, 0); //These all should be default
    assert_eq!(scanner.current, 0); //These all should be default
    assert_eq!(scanner.line, 1); //These all should be default
    scanner.load(
        "var answer = 6 * 7;\nprint answer;\nprint \"done\";\n".chars().collect(),
        &mut Floats::new(Host),
    );
    //Assuming we parsed the file successfully we should have tokens
    assert_ne!(0, scanner.tokens.len());
}

#[test]
fn a_new_scanner_is_empty() {
    let scanner = Scanner::default();
    assert_eq!(scanner.tokens.len(), 0);
    assert_eq!(scanner.source.len(), 0);
    assert_eq!(scanner.start, 0);
    assert_eq!(scanner.current, 0);
    assert_eq!(scanner.line, 1);
    assert!(!scanner.had_error);
    assert!(scanner.diagnostics.is_empty());
}

#[test]
fn a_program_gives_tokens() {
    let scanner = scan("var a = 1;\nprint a;\n");
    assert_ne!(0, scanner.tokens.len());
    assert_eq!(
        kinds(&scanner),
        vec![
            TokenType::VAR,
            TokenType::IDENTIFIER,
            TokenType::EQUAL,
            TokenType::NUMBER,
            TokenType::SEMICOLON,
            TokenType::PRINT,
            TokenType::IDENTIFIER,
            TokenType::SEMICOLON
        ]
    );
    assert_eq!(scanner.line, 3);
    assert_eq!(scanner.tokens[5].line, 2);
    assert_eq!(scanner.current, scanner.source.len());
}

#[test]
fn single_characters() {
    let scanner = scan("(){},.-+;^");
    assert_eq!(
        kinds(&scanner),
        vec![
            TokenType::LEFT_PAREN,
            TokenType::RIGHT_PAREN,
            TokenType::LEFT_BRACE,
            TokenType::RIGHT_BRACE,
            TokenType::COMMA,
            TokenType::DOT,
            TokenType::MINUS,
            TokenType::PLUS,
            TokenType::SEMICOLON,
            TokenType::EXPONENT
        ]
    );
    for token in &scanner.tokens {
        assert_eq!(token.literal, TokenLiteral::Empty);
        assert_eq!(token.lexeme.chars().count(), 1);
    }
}

#[test]
fn one_or_two_characters() {
    let scanner = scan("* ** ! != = == < <= > >= /");
    assert_eq!(
        kinds(&scanner),
        vec![
            TokenType::STAR,
            TokenType::EXPONENT,
            TokenType::BANG,
            TokenType::BANG_EQUAL,
            TokenType::EQUAL,
            TokenType::EQUAL_EQUAL,
            TokenType::LESS,
            TokenType::LESS_EQUAL,
            TokenType::GREATER,
            TokenType::GREATER_EQUAL,
            TokenType::SLASH
        ]
    );
    assert_eq!(scanner.tokens[1].lexeme, "**");
    assert_eq!(scanner.tokens[3].lexeme, "!=");
    let scanner = scan("***");
    assert_eq!(kinds(&scanner), vec![TokenType::EXPONENT, TokenType::STAR]);
    let scanner = scan("===");
    assert_eq!(kinds(&scanner), vec![TokenType::EQUAL_EQUAL, TokenType::EQUAL]);
}

#[test]
fn strings_of_both_quotes() {
    let scanner = scan("\"double 'inner'\" 'single \"inner\"'");
    assert_eq!(kinds(&scanner), vec![TokenType::STRING, TokenType::STRING]);
    assert_eq!(scanner.tokens[0].literal, TokenLiteral::String("double 'inner'".to_string()));
    assert_eq!(scanner.tokens[0].lexeme, "\"double 'inner'\"");
    assert_eq!(scanner.tokens[1].literal, TokenLiteral::String("single \"inner\"".to_string()));
    let scanner = scan("''");
    assert_eq!(scanner.tokens[0].literal, TokenLiteral::String(String::new()));
}

#[test]
fn strings_run_over_lines() {
    let scanner = scan("'one\ntwo\nthree' x");
    assert_eq!(scanner.tokens.len(), 2);
    assert_eq!(scanner.tokens[0].literal, TokenLiteral::String("one\ntwo\nthree".to_string()));
    assert_eq!(scanner.tokens[0].line, 3);
    assert_eq!(scanner.tokens[1].line, 3);
    assert!(!scanner.had_error);
}

#[test]
fn a_string_without_its_end_is_an_error() {
    let scanner = scan("1 'open\nstill open");
    assert!(scanner.had_error);
    assert_eq!(kinds(&scanner), vec![TokenType::NUMBER]);
    assert_eq!(scanner.diagnostics, vec!["[line: 2] Error : Unterminated string".to_string()]);
    assert_eq!(scanner.current, scanner.source.len());
    let scanner = scan("'");
    assert!(scanner.had_error);
    assert!(scanner.tokens.is_empty());
}

#[test]
fn numbers() {
    let scanner = scan("0 42 007 12.5 3. .5 1.2.3");
    let literals: Vec<TokenLiteral> = scanner.tokens.iter().map(|t| t.literal.clone()).collect();
    assert_eq!(
        literals,
        vec![
            TokenLiteral::Integer(0),
            TokenLiteral::Integer(42),
            TokenLiteral::Integer(7),
            TokenLiteral::Float(12.5f64.to_bits()),
            TokenLiteral::Integer(3),
            TokenLiteral::Empty,
            TokenLiteral::Empty,
            TokenLiteral::Integer(5),
            TokenLiteral::Float(1.2f64.to_bits()),
            TokenLiteral::Empty,
            TokenLiteral::Integer(3),
        ]
    );
    assert_eq!(scanner.tokens[3].lexeme, "12.5");
    assert_eq!(scanner.tokens[3].token_type, TokenType::NUMBER);
}

#[test]
fn an_integer_that_does_not_fit_is_zero() {
    let scanner = scan("9223372036854775807 9223372036854775808 99999999999999999999999");
    assert_eq!(scanner.tokens[0].literal, TokenLiteral::Integer(i64::MAX));
    assert_eq!(scanner.tokens[1].literal, TokenLiteral::Integer(0));
    assert_eq!(scanner.tokens[2].literal, TokenLiteral::Integer(0));
    assert!(!scanner.had_error);
}

#[test]
fn identifiers_and_keywords() {
    let scanner = scan("and class else false for fun if nil or print return super this true var const while dump");
    assert_eq!(
        kinds(&scanner),
        vec![
            TokenType::AND,
            TokenType::CLASS,
            TokenType::ELSE,
            TokenType::FALSE,
            TokenType::FOR,
            TokenType::FUN,
            TokenType::IF,
            TokenType::NIL,
            TokenType::OR,
            TokenType::PRINT,
            TokenType::RETURN,
            TokenType::SUPER,
            TokenType::THIS,
            TokenType::TRUE,
            TokenType::VAR,
            TokenType::CONST,
            TokenType::WHILE,
            TokenType::DUMP
        ]
    );
    let scanner = scan("andy x1 \u{e9}t\u{e9} printer");
    assert_eq!(
        kinds(&scanner),
        vec![
            TokenType::IDENTIFIER,
            TokenType::IDENTIFIER,
            TokenType::IDENTIFIER,
            TokenType::IDENTIFIER
        ]
    );
    assert_eq!(scanner.tokens[0].literal, TokenLiteral::String("andy".to_string()));
    assert_eq!(scanner.tokens[1].lexeme, "x1");
    assert_eq!(scanner.tokens[2].lexeme, "\u{e9}t\u{e9}");
}

#[test]
fn keywords_by_name() {
    assert_eq!(keyword_token_type("and"), Some(TokenType::AND));
    assert_eq!(keyword_token_type("while"), Some(TokenType::WHILE));
    assert_eq!(keyword_token_type("dump"), Some(TokenType::DUMP));
    assert_eq!(keyword_token_type("const"), Some(TokenType::CONST));
    assert_eq!(keyword_token_type("While"), None);
    assert_eq!(keyword_token_type("whil"), None);
    assert_eq!(keyword_token_type(""), None);
    assert_eq!(keyword_token_type("EOF"), None);
}

#[test]
fn comments() {
    let scanner = scan("1 // to the end\n2 /* over\nlines */ 3 /**/");
    assert_eq!(
        kinds(&scanner),
        vec![
            TokenType::NUMBER,
            TokenType::COMMENT,
            TokenType::NUMBER,
            TokenType::BLOCK_COMMENT,
            TokenType::NUMBER,
            TokenType::BLOCK_COMMENT
        ]
    );
    assert_eq!(scanner.tokens[1].literal, TokenLiteral::String(" to the end".to_string()));
    assert_eq!(scanner.tokens[1].lexeme, "// to the end");
    assert_eq!(scanner.tokens[3].literal, TokenLiteral::String(" over\nlines ".to_string()));
    assert_eq!(scanner.tokens[3].lexeme, "/* over\nlines */");
    assert_eq!(scanner.tokens[4].line, 3);
    assert_eq!(scanner.tokens[5].literal, TokenLiteral::String(String::new()));
    assert!(!scanner.had_error);
}

#[test]
fn a_block_comment_without_its_end_is_an_error() {
    let scanner = scan("1 /* open\n*");
    assert!(scanner.had_error);
    assert_eq!(kinds(&scanner), vec![TokenType::NUMBER]);
    assert_eq!(
        scanner.diagnostics,
        vec!["[line: 2] Error : Unterminated block comment!".to_string()]
    );
    let scanner = scan("/*/");
    assert!(scanner.had_error);
}

#[test]
fn unknown_characters_do_not_stop_the_scan() {
    let scanner = scan("1 @ 2\n# 3 _");
    assert!(scanner.had_error);
    assert_eq!(kinds(&scanner), vec![TokenType::NUMBER, TokenType::NUMBER, TokenType::NUMBER]);
    assert_eq!(
        scanner.diagnostics,
        vec![
            "[line: 1] Error : Unexpected character: @".to_string(),
            "[line: 2] Error : Unexpected character: #".to_string(),
            "[line: 2] Error : Unexpected character: _".to_string()
        ]
    );
}

#[test]
fn blank_space_gives_nothing() {
    let scanner = scan(" \t\r\n \n");
    assert!(scanner.tokens.is_empty());
    assert_eq!(scanner.line, 3);
    assert!(!scanner.had_error);
}

#[test]
fn scanning_twice_gives_the_same_tokens() {
    let source = "fun f(a) { return a ** 2 / 1.5; } // c\nprint f('x\ny') != nil; @ 'open";
    let first = scan(source);
    let second = scan(source);
    assert_eq!(first.tokens, second.tokens);
    assert_eq!(first.diagnostics, second.diagnostics);
    assert_eq!(first.line, second.line);
    assert_eq!(first.had_error, second.had_error);
}

#[test]
fn input_adds_up_over_loads() {
    let mut scanner = Scanner::default();
    scanner.load("var a".chars().collect(), &mut Floats::new(Host));
    scanner.load(" = 1;\n".chars().collect(), &mut Floats::new(Host));
    scanner.load("a".chars().collect(), &mut Floats::new(Host));
    assert_eq!(
        kinds(&scanner),
        vec![
            TokenType::VAR,
            TokenType::IDENTIFIER,
            TokenType::EQUAL,
            TokenType::NUMBER,
            TokenType::SEMICOLON,
            TokenType::IDENTIFIER
        ]
    );
    assert_eq!(scanner.source.len(), 12);
    assert_eq!(scanner.tokens[5].line, 2);
}

#[test]
fn tokens_copy_and_compare() {
    let token = Token {
        token_type: TokenType::STRING,
        lexeme: "'a'".to_string(),
        literal: TokenLiteral::String("a".to_string()),
        line: 4,
    };
    let copy = token.clone();
    assert_eq!(token, copy);
    assert_eq!(copy.line, 4);
}

#[test]
fn the_texts_of_the_errors() {
    assert_eq!(LoxError::RuntimeException.to_text(), "Unhandled runtime exception");
    assert_eq!(LoxError::ExitCode(65).to_text(), "Lox exited with code 65");
    assert_eq!(LoxError::ExitCode(-1).to_text(), "Lox exited with code -1");
    assert_eq!(LoxError::ScanError('@').to_text(), "Error while reading char @");
    assert_eq!(
        LoxError::ParseError(ParserError::UnsupportedAction).to_text(),
        "Parser error: Unsupported Action"
    );
    assert_eq!(
        LoxError::ParseError(ParserError::Generic("why".to_string())).to_text(),
        "Parser error: Generic Error(why)"
    );
    assert_eq!(
        LoxError::InvalidToken { token_type: TokenType::LEFT_PAREN, line: 3, loc: 14 }.to_text(),
        "Invalid token LEFT_PAREN at 3:14"
    );
    assert_eq!(ParserError::UnsupportedAction.to_text(), "Unsupported Action");
    assert_eq!(ParserError::Generic(String::new()).to_text(), "Generic Error()");
    assert_eq!(
        LoxError::from(ParserError::UnsupportedAction),
        LoxError::ParseError(ParserError::UnsupportedAction)
    );
    assert_eq!(TokenType::BLOCK_COMMENT.name(), "BLOCK_COMMENT");
    assert_eq!(TokenType::EOF.name(), "EOF");
}

#[test]
fn numerals() {
    assert_eq!(integer_text(0), "0");
    assert_eq!(integer_text(7), "7");
    assert_eq!(integer_text(-7), "-7");
    assert_eq!(integer_text(1234567890), "1234567890");
    assert_eq!(integer_text(i64::MAX), "9223372036854775807");
    assert_eq!(integer_text(i64::MIN), "-9223372036854775808");
    assert_eq!(natural_text(u64::MAX), "18446744073709551615");
    let digits: Vec<char> = "x0123y".chars().collect();
    assert_eq!(integer_of(&digits, 1, 5), 123);
    assert_eq!(integer_of(&digits, 2, 2), 0);
    assert_eq!(integer_of(&digits, 4, 2), 0);
    assert_eq!(integer_of(&digits, 1, 9), 0);
}

#[test]
fn texts() {
    let chars: Vec<char> = "h\u{e9}llo".chars().collect();
    assert_eq!(text_of(&chars, 0, 5), "h\u{e9}llo");
    assert_eq!(text_of(&chars, 1, 3), "\u{e9}l");
    assert_eq!(text_of(&chars, 3, 3), "");
    assert_eq!(text_of(&chars, 3, 1), "");
    assert_eq!(text_of(&chars, 0, 6), "");
    assert_eq!(chars_of("h\u{e9}llo"), chars);
    assert!(chars_of("").is_empty());
    assert_eq!(joined(&owned("ab"), &owned("cd")), "abcd");
}

#[test]
fn doubles_by_their_bits() {
    let zero = 0.0f64.to_bits();
    let minus_zero = (-0.0f64).to_bits();
    let one = 1.0f64.to_bits();
    let nan = f64::NAN.to_bits();
    let infinity = f64::INFINITY.to_bits();
    assert!(float_is_zero(zero));
    assert!(float_is_zero(minus_zero));
    assert!(!float_is_zero(one));
    assert!(!float_is_zero(nan));
    assert!(float_is_nan(nan));
    assert!(float_is_nan((-f64::NAN).to_bits()));
    assert!(!float_is_nan(infinity));
    assert!(!float_is_nan(f64::NEG_INFINITY.to_bits()));
    assert!(!float_is_nan(f64::MAX.to_bits()));
    assert!(floats_equal(zero, minus_zero));
    assert!(floats_equal(one, one));
    assert!(floats_equal(infinity, infinity));
    assert!(!floats_equal(nan, nan));
    assert!(!floats_equal(one, zero));
    assert!(!floats_equal(one, (-1.0f64).to_bits()));
    for (a, b) in [(1.5f64, 1.5f64), (0.0, -0.0), (f64::NAN, 1.0), (2.0, 3.0), (f64::NAN, f64::NAN)]
    {
        assert_eq!(floats_equal(a.to_bits(), b.to_bits()), a == b);
        assert_eq!(float_is_zero(a.to_bits()), a == 0.0);
    }
}

#[test]
fn a_numeral_reads_back_as_its_number() {
    for n in [0i64, 7, 10, 99, 100, 1234567890, i64::MAX] {
        let digits: Vec<char> = integer_text(n).chars().collect();
        assert_eq!(integer_of(&digits, 0, digits.len()), n);
    }
}

#[test]
fn a_scanner_copies() {
    let scanner = scan("var a = 'x'; @");
    let copy = scanner.clone();
    assert_eq!(copy.tokens, scanner.tokens);
    assert_eq!(copy.diagnostics, scanner.diagnostics);
    assert_eq!(copy.source, scanner.source);
    assert_eq!(copy.current, scanner.current);
    assert_eq!(copy.start, scanner.start);
    assert_eq!(copy.line, scanner.line);
    assert_eq!(copy.had_error, scanner.had_error);
}
