use rlox::ast::{apply_binary, apply_unary, float_op, integer_power};
use rlox::ast::{ParserError, TokenLiteral, TokenType};
use rlox::floats::{FloatOp, FloatOperand, FloatRequest, FloatUnit, Floats};

/// The float unit of the machine that runs the tests.
struct Host;

fn double(operand: &FloatOperand) -> f64 {
    match operand {
        FloatOperand::Bits(b) => f64::from_bits(*b),
        FloatOperand::Integer(i) => *i as f64,
    }
}

impl FloatUnit for Host {
    fn compute(&self, request: &FloatRequest) -> u64 {
        let value = match request {
            FloatRequest::Literal(text) => text.parse::<f64>().unwrap_or_default(),
            FloatRequest::Promote(i) => *i as f64,
            FloatRequest::Binary(op, lhs, rhs) => match op {
                FloatOp::Add => double(lhs) + double(rhs),
                FloatOp::Sub => double(lhs) - double(rhs),
                FloatOp::Mul => double(lhs) * double(rhs),
                FloatOp::Div => double(lhs) / double(rhs),
                FloatOp::Pow => match rhs {
                    FloatOperand::Integer(i) => double(lhs).powi(*i as i32),
                    FloatOperand::Bits(b) => double(lhs).powf(f64::from_bits(*b)),
                },
            },
        };
        value.to_bits()
    }

    fn render(&self, bits: u64) -> String {
        f64::from_bits(bits).to_string()
    }
}

fn integer(i: i64) -> TokenLiteral {
    TokenLiteral::Integer(i)
}

fn double_value(f: f64) -> TokenLiteral {
    TokenLiteral::Float(f.to_bits())
}

fn text(s: &str) -> TokenLiteral {
    TokenLiteral::String(s.to_string())
}

const UNSUPPORTED: Result<TokenLiteral, ParserError> = Err(ParserError::UnsupportedAction);

#[test]
fn truthiness() {
    assert!(!TokenLiteral::Empty.is_truthy());
    assert!(!integer(0).is_truthy());
    assert!(integer(-1).is_truthy());
    assert!(!double_value(0.0).is_truthy());
    assert!(!double_value(-0.0).is_truthy());
    assert!(double_value(0.1).is_truthy());
    assert!(double_value(f64::NAN).is_truthy());
    assert!(text("").is_truthy());
    assert!(text("false").is_truthy());
    assert!(TokenLiteral::Boolean(true).is_truthy());
    assert!(!TokenLiteral::Boolean(false).is_truthy());
}

#[test]
fn the_texts_of_values() {
    assert_eq!(TokenLiteral::Empty.to_text(&mut Floats::new(Host)), "");
    assert_eq!(integer(-12).to_text(&mut Floats::new(Host)), "-12");
    assert_eq!(double_value(1.0).to_text(&mut Floats::new(Host)), "1");
    assert_eq!(double_value(2.5).to_text(&mut Floats::new(Host)), "2.5");
    assert_eq!(text("as is").to_text(&mut Floats::new(Host)), "as is");
    assert_eq!(TokenLiteral::Boolean(true).to_text(&mut Floats::new(Host)), "true");
    assert_eq!(TokenLiteral::Boolean(false).to_text(&mut Floats::new(Host)), "false");
}

#[test]
fn sums() {
    assert_eq!(integer(2).add(integer(3), &mut Floats::new(Host)), Ok(integer(5)));
    assert_eq!(integer(i64::MAX).add(integer(1), &mut Floats::new(Host)), UNSUPPORTED);
    assert_eq!(integer(i64::MIN).add(integer(-1), &mut Floats::new(Host)), UNSUPPORTED);
    assert_eq!(integer(2).add(double_value(0.5), &mut Floats::new(Host)), Ok(double_value(2.5)));
    assert_eq!(double_value(0.5).add(integer(2), &mut Floats::new(Host)), Ok(double_value(2.5)));
    assert_eq!(double_value(0.5).add(double_value(0.25), &mut Floats::new(Host)), Ok(double_value(0.75)));
    assert_eq!(text("a").add(text("b"), &mut Floats::new(Host)), Ok(text("ab")));
    assert_eq!(text("a").add(integer(1), &mut Floats::new(Host)), Ok(text("a1")));
    assert_eq!(integer(1).add(text("a"), &mut Floats::new(Host)), Ok(text("1a")));
    assert_eq!(double_value(1.5).add(text("a"), &mut Floats::new(Host)), Ok(text("1.5a")));
    assert_eq!(text("a").add(TokenLiteral::Boolean(true), &mut Floats::new(Host)), Ok(text("atrue")));
    assert_eq!(TokenLiteral::Empty.add(text("a"), &mut Floats::new(Host)), Ok(text("a")));
    assert_eq!(TokenLiteral::Boolean(true).add(integer(1), &mut Floats::new(Host)), UNSUPPORTED);
    assert_eq!(TokenLiteral::Empty.add(TokenLiteral::Empty, &mut Floats::new(Host)), UNSUPPORTED);
}

#[test]
fn differences_products_quotients() {
    assert_eq!(integer(2).sub(integer(3), &mut Floats::new(Host)), Ok(integer(-1)));
    assert_eq!(integer(i64::MIN).sub(integer(1), &mut Floats::new(Host)), UNSUPPORTED);
    assert_eq!(double_value(2.0).sub(integer(3), &mut Floats::new(Host)), Ok(double_value(-1.0)));
    assert_eq!(text("a").sub(integer(3), &mut Floats::new(Host)), UNSUPPORTED);
    assert_eq!(integer(4).mul(integer(-3), &mut Floats::new(Host)), Ok(integer(-12)));
    assert_eq!(integer(i64::MAX).mul(integer(2), &mut Floats::new(Host)), UNSUPPORTED);
    assert_eq!(integer(4).mul(double_value(0.5), &mut Floats::new(Host)), Ok(double_value(2.0)));
    assert_eq!(integer(4).mul(text("a"), &mut Floats::new(Host)), UNSUPPORTED);
    assert_eq!(integer(5).div(integer(5), &mut Floats::new(Host)), Ok(double_value(1.0)));
    assert_eq!(integer(1).div(integer(4), &mut Floats::new(Host)), Ok(double_value(0.25)));
    assert_eq!(integer(1).div(integer(0), &mut Floats::new(Host)), Ok(double_value(f64::INFINITY)));
    assert_eq!(double_value(1.0).div(double_value(4.0), &mut Floats::new(Host)), Ok(double_value(0.25)));
    assert_eq!(TokenLiteral::Empty.div(integer(1), &mut Floats::new(Host)), UNSUPPORTED);
}

#[test]
fn powers() {
    assert_eq!(integer(5).pow(integer(5), &mut Floats::new(Host)), Ok(integer(3125)));
    assert_eq!(integer(-2).pow(integer(3), &mut Floats::new(Host)), Ok(integer(-8)));
    assert_eq!(integer(-2).pow(integer(63), &mut Floats::new(Host)), Ok(integer(i64::MIN)));
    assert_eq!(integer(2).pow(integer(63), &mut Floats::new(Host)), UNSUPPORTED);
    assert_eq!(integer(2).pow(integer(62), &mut Floats::new(Host)), Ok(integer(1 << 62)));
    assert_eq!(integer(0).pow(integer(0), &mut Floats::new(Host)), Ok(integer(1)));
    assert_eq!(integer(0).pow(integer(i64::MAX), &mut Floats::new(Host)), Ok(integer(0)));
    assert_eq!(integer(1).pow(integer(i64::MAX), &mut Floats::new(Host)), Ok(integer(1)));
    assert_eq!(integer(-1).pow(integer(i64::MAX), &mut Floats::new(Host)), Ok(integer(-1)));
    assert_eq!(integer(-1).pow(integer(i64::MAX - 1), &mut Floats::new(Host)), Ok(integer(1)));
    assert_eq!(integer(2).pow(integer(-1), &mut Floats::new(Host)), UNSUPPORTED);
    assert_eq!(double_value(2.0).pow(integer(-1), &mut Floats::new(Host)), Ok(double_value(0.5)));
    assert_eq!(double_value(9.0).pow(double_value(0.5), &mut Floats::new(Host)), Ok(double_value(3.0)));
    assert_eq!(integer(9).pow(double_value(0.5), &mut Floats::new(Host)), Ok(TokenLiteral::Empty));
    assert_eq!(text("a").pow(integer(1), &mut Floats::new(Host)), UNSUPPORTED);
    assert_eq!(integer_power(3, 4), Some(81));
    assert_eq!(integer_power(10, 19), None);
    assert_eq!(integer_power(10, 18), Some(1_000_000_000_000_000_000));
    assert_eq!(integer_power(3, -4), None);
}

#[test]
fn float_requests() {
    assert_eq!(
        TokenLiteral::float_request(FloatOp::Div, &integer(1), &integer(2)),
        Some(FloatRequest::Binary(FloatOp::Div, FloatOperand::Integer(1), FloatOperand::Integer(2)))
    );
    assert_eq!(
        TokenLiteral::float_request(FloatOp::Add, &integer(1), &double_value(2.0)),
        Some(FloatRequest::Binary(
            FloatOp::Add,
            FloatOperand::Integer(1),
            FloatOperand::Bits(2.0f64.to_bits())
        ))
    );
    assert_eq!(
        TokenLiteral::float_request(FloatOp::Pow, &double_value(2.0), &integer(3)),
        Some(FloatRequest::Binary(
            FloatOp::Pow,
            FloatOperand::Bits(2.0f64.to_bits()),
            FloatOperand::Integer(3)
        ))
    );
    assert_eq!(TokenLiteral::float_request(FloatOp::Add, &integer(1), &integer(2)), None);
    assert_eq!(TokenLiteral::float_request(FloatOp::Pow, &integer(1), &double_value(2.0)), None);
    assert_eq!(TokenLiteral::float_request(FloatOp::Add, &text("a"), &double_value(2.0)), None);
    assert_eq!(TokenLiteral::float_request(FloatOp::Div, &integer(1), &TokenLiteral::Empty), None);
}

#[test]
fn equality() {
    assert!(integer(3).is_equal(integer(3), &mut Floats::new(Host)));
    assert!(!integer(3).is_equal(integer(4), &mut Floats::new(Host)));
    assert!(integer(3).is_equal(double_value(3.0), &mut Floats::new(Host)));
    assert!(double_value(3.0).is_equal(integer(3), &mut Floats::new(Host)));
    assert!(!double_value(3.5).is_equal(integer(3), &mut Floats::new(Host)));
    assert!(double_value(0.0).is_equal(double_value(-0.0), &mut Floats::new(Host)));
    assert!(!double_value(f64::NAN).is_equal(double_value(f64::NAN), &mut Floats::new(Host)));
    assert!(text("a").is_equal(text("a"), &mut Floats::new(Host)));
    assert!(!text("a").is_equal(text("b"), &mut Floats::new(Host)));
    assert!(!text("3").is_equal(integer(3), &mut Floats::new(Host)));
    assert!(TokenLiteral::Boolean(false).is_equal(TokenLiteral::Boolean(false), &mut Floats::new(Host)));
    assert!(!TokenLiteral::Boolean(false).is_equal(TokenLiteral::Boolean(true), &mut Floats::new(Host)));
    assert!(!TokenLiteral::Boolean(false).is_equal(integer(0), &mut Floats::new(Host)));
    assert!(!TokenLiteral::Empty.is_equal(TokenLiteral::Empty, &mut Floats::new(Host)));
    assert!(!TokenLiteral::Empty.is_equal(integer(0), &mut Floats::new(Host)));
}

#[test]
fn orderings() {
    assert_eq!(integer(1).compare(TokenType::LESS, &integer(2)), Ok(TokenLiteral::Boolean(true)));
    assert_eq!(integer(2).compare(TokenType::LESS, &integer(2)), Ok(TokenLiteral::Boolean(false)));
    assert_eq!(integer(2).compare(TokenType::LESS_EQUAL, &integer(2)), Ok(TokenLiteral::Boolean(true)));
    assert_eq!(integer(3).compare(TokenType::GREATER, &integer(2)), Ok(TokenLiteral::Boolean(true)));
    assert_eq!(integer(1).compare(TokenType::GREATER_EQUAL, &integer(2)), Ok(TokenLiteral::Boolean(false)));
    assert_eq!(integer(1).compare(TokenType::LESS, &double_value(2.0)), Ok(TokenLiteral::Empty));
    assert_eq!(double_value(1.0).compare(TokenType::LESS, &double_value(2.0)), Ok(TokenLiteral::Empty));
    assert_eq!(integer(1).compare(TokenType::LESS, &text("2")), UNSUPPORTED);
    assert_eq!(TokenLiteral::Empty.compare(TokenType::LESS, &integer(2)), UNSUPPORTED);
    assert_eq!(integer(1).compare(TokenType::PLUS, &integer(2)), UNSUPPORTED);
}

#[test]
fn negation() {
    assert_eq!(integer(5).negate(), Ok(integer(-5)));
    assert_eq!(integer(i64::MAX).negate(), Ok(integer(i64::MIN + 1)));
    assert_eq!(integer(i64::MIN).negate(), UNSUPPORTED);
    assert_eq!(double_value(1.0).negate(), UNSUPPORTED);
    assert_eq!(text("a").negate(), UNSUPPORTED);
}

#[test]
fn operators_by_token() {
    assert_eq!(float_op(TokenType::PLUS), Some(FloatOp::Add));
    assert_eq!(float_op(TokenType::EXPONENT), Some(FloatOp::Pow));
    assert_eq!(float_op(TokenType::LESS), None);
    assert_eq!(apply_binary(TokenType::STAR, &integer(6), &integer(7), &mut Floats::new(Host)), Ok(integer(42)));
    assert_eq!(
        apply_binary(TokenType::EQUAL_EQUAL, &integer(6), &integer(7), &mut Floats::new(Host)),
        Ok(TokenLiteral::Boolean(false))
    );
    assert_eq!(
        apply_binary(TokenType::BANG_EQUAL, &integer(6), &integer(7), &mut Floats::new(Host)),
        Ok(TokenLiteral::Boolean(true))
    );
    assert_eq!(
        apply_binary(TokenType::GREATER, &integer(6), &integer(7), &mut Floats::new(Host)),
        Ok(TokenLiteral::Boolean(false))
    );
    assert_eq!(apply_binary(TokenType::SEMICOLON, &integer(6), &integer(7), &mut Floats::new(Host)), UNSUPPORTED);
    assert_eq!(apply_unary(TokenType::BANG, &integer(0)), Ok(TokenLiteral::Boolean(true)));
    assert_eq!(apply_unary(TokenType::MINUS, &integer(3)), Ok(integer(-3)));
    assert_eq!(apply_unary(TokenType::PLUS, &integer(3)), UNSUPPORTED);
}

#[test]
fn values_copy() {
    for value in [TokenLiteral::Empty, integer(1), double_value(1.5), text("a"), TokenLiteral::Boolean(true)] {
        assert_eq!(value.clone(), value);
    }
}
