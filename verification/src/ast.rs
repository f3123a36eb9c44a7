//! Tokens, runtime values, errors and expressions.
use vstd::prelude::*;
use crate::floats::{FloatOp, FloatOperand, FloatRequest, FloatRequestView, FloatUnit};
use crate::floats::{after, equal, float_is_zero, floats_equal, is_zero, Floats, Oracle, Told};
use crate::text::{decimal, digits_of, integer_text, joined, natural_text, owned};

verus! {

/// The kinds of token.
#[derive(Clone, Copy, Debug, PartialEq, Eq, Hash, Structural)]
pub enum TokenType {
    // Single-character tokens.
    LEFT_PAREN,
    RIGHT_PAREN,
    LEFT_BRACE,
    RIGHT_BRACE,
    COMMA,
    DOT,
    MINUS,
    PLUS,
    SEMICOLON,
    SLASH,
    STAR,
    EXPONENT,
    // One or two character tokens.
    BANG,
    BANG_EQUAL,
    EQUAL,
    EQUAL_EQUAL,
    GREATER,
    GREATER_EQUAL,
    LESS,
    LESS_EQUAL,
    // Literals.
    IDENTIFIER,
    STRING,
    NUMBER,
    // Keywords.
    AND,
    CLASS,
    ELSE,
    FALSE,
    FUN,
    FOR,
    IF,
    NIL,
    OR,
    PRINT,
    RETURN,
    SUPER,
    THIS,
    TRUE,
    VAR,
    CONST,
    WHILE,
    EOF,
    COMMENT,
    BLOCK_COMMENT,
    DUMP,
}

/// The keyword that a word is, if it is one.
pub open spec fn keyword_of(word: Seq<char>) -> Option<TokenType> {
    if word == "and"@ {
        Some(TokenType::AND)
    } else if word == "class"@ {
        Some(TokenType::CLASS)
    } else if word == "else"@ {
        Some(TokenType::ELSE)
    } else if word == "false"@ {
        Some(TokenType::FALSE)
    } else if word == "for"@ {
        Some(TokenType::FOR)
    } else if word == "fun"@ {
        Some(TokenType::FUN)
    } else if word == "if"@ {
        Some(TokenType::IF)
    } else if word == "nil"@ {
        Some(TokenType::NIL)
    } else if word == "or"@ {
        Some(TokenType::OR)
    } else if word == "print"@ {
        Some(TokenType::PRINT)
    } else if word == "return"@ {
        Some(TokenType::RETURN)
    } else if word == "super"@ {
        Some(TokenType::SUPER)
    } else if word == "this"@ {
        Some(TokenType::THIS)
    } else if word == "true"@ {
        Some(TokenType::TRUE)
    } else if word == "var"@ {
        Some(TokenType::VAR)
    } else if word == "const"@ {
        Some(TokenType::CONST)
    } else if word == "while"@ {
        Some(TokenType::WHILE)
    } else if word == "dump"@ {
        Some(TokenType::DUMP)
    } else {
        None
    }
}

fn is_word(ident: &String, word: &str) -> (r: bool)
    ensures
        r == (ident@ == word@),
{
    let w = owned(word);
    *ident == w
}

/// Return the [`TokenType`] for a reserved keyword if `ident` is a keyword.
pub fn keyword_token_type(ident: &str) -> (r: Option<TokenType>)
    ensures
        r == keyword_of(ident@),
{
    let word = owned(ident);
    if is_word(&word, "and") {
        Some(TokenType::AND)
    } else if is_word(&word, "class") {
        Some(TokenType::CLASS)
    } else if is_word(&word, "else") {
        Some(TokenType::ELSE)
    } else if is_word(&word, "false") {
        Some(TokenType::FALSE)
    } else if is_word(&word, "for") {
        Some(TokenType::FOR)
    } else if is_word(&word, "fun") {
        Some(TokenType::FUN)
    } else if is_word(&word, "if") {
        Some(TokenType::IF)
    } else if is_word(&word, "nil") {
        Some(TokenType::NIL)
    } else if is_word(&word, "or") {
        Some(TokenType::OR)
    } else if is_word(&word, "print") {
        Some(TokenType::PRINT)
    } else if is_word(&word, "return") {
        Some(TokenType::RETURN)
    } else if is_word(&word, "super") {
        Some(TokenType::SUPER)
    } else if is_word(&word, "this") {
        Some(TokenType::THIS)
    } else if is_word(&word, "true") {
        Some(TokenType::TRUE)
    } else if is_word(&word, "var") {
        Some(TokenType::VAR)
    } else if is_word(&word, "const") {
        Some(TokenType::CONST)
    } else if is_word(&word, "while") {
        Some(TokenType::WHILE)
    } else if is_word(&word, "dump") {
        Some(TokenType::DUMP)
    } else {
        None
    }
}

impl TokenType {
    /// The name of the kind, as it is written in this enum.
    pub open spec fn name_spec(self) -> Seq<char> {
        match self {
            TokenType::LEFT_PAREN => "LEFT_PAREN"@,
            TokenType::RIGHT_PAREN => "RIGHT_PAREN"@,
            TokenType::LEFT_BRACE => "LEFT_BRACE"@,
            TokenType::RIGHT_BRACE => "RIGHT_BRACE"@,
            TokenType::COMMA => "COMMA"@,
            TokenType::DOT => "DOT"@,
            TokenType::MINUS => "MINUS"@,
            TokenType::PLUS => "PLUS"@,
            TokenType::SEMICOLON => "SEMICOLON"@,
            TokenType::SLASH => "SLASH"@,
            TokenType::STAR => "STAR"@,
            TokenType::EXPONENT => "EXPONENT"@,
            TokenType::BANG => "BANG"@,
            TokenType::BANG_EQUAL => "BANG_EQUAL"@,
            TokenType::EQUAL => "EQUAL"@,
            TokenType::EQUAL_EQUAL => "EQUAL_EQUAL"@,
            TokenType::GREATER => "GREATER"@,
            TokenType::GREATER_EQUAL => "GREATER_EQUAL"@,
            TokenType::LESS => "LESS"@,
            TokenType::LESS_EQUAL => "LESS_EQUAL"@,
            TokenType::IDENTIFIER => "IDENTIFIER"@,
            TokenType::STRING => "STRING"@,
            TokenType::NUMBER => "NUMBER"@,
            TokenType::AND => "AND"@,
            TokenType::CLASS => "CLASS"@,
            TokenType::ELSE => "ELSE"@,
            TokenType::FALSE => "FALSE"@,
            TokenType::FUN => "FUN"@,
            TokenType::FOR => "FOR"@,
            TokenType::IF => "IF"@,
            TokenType::NIL => "NIL"@,
            TokenType::OR => "OR"@,
            TokenType::PRINT => "PRINT"@,
            TokenType::RETURN => "RETURN"@,
            TokenType::SUPER => "SUPER"@,
            TokenType::THIS => "THIS"@,
            TokenType::TRUE => "TRUE"@,
            TokenType::VAR => "VAR"@,
            TokenType::CONST => "CONST"@,
            TokenType::WHILE => "WHILE"@,
            TokenType::EOF => "EOF"@,
            TokenType::COMMENT => "COMMENT"@,
            TokenType::BLOCK_COMMENT => "BLOCK_COMMENT"@,
            TokenType::DUMP => "DUMP"@,
        }
    }

    /// The name of the kind.
    pub fn name(self) -> (r: String)
        ensures
            r@ == self.name_spec(),
    {
        match self {
            TokenType::LEFT_PAREN => owned("LEFT_PAREN"),
            TokenType::RIGHT_PAREN => owned("RIGHT_PAREN"),
            TokenType::LEFT_BRACE => owned("LEFT_BRACE"),
            TokenType::RIGHT_BRACE => owned("RIGHT_BRACE"),
            TokenType::COMMA => owned("COMMA"),
            TokenType::DOT => owned("DOT"),
            TokenType::MINUS => owned("MINUS"),
            TokenType::PLUS => owned("PLUS"),
            TokenType::SEMICOLON => owned("SEMICOLON"),
            TokenType::SLASH => owned("SLASH"),
            TokenType::STAR => owned("STAR"),
            TokenType::EXPONENT => owned("EXPONENT"),
            TokenType::BANG => owned("BANG"),
            TokenType::BANG_EQUAL => owned("BANG_EQUAL"),
            TokenType::EQUAL => owned("EQUAL"),
            TokenType::EQUAL_EQUAL => owned("EQUAL_EQUAL"),
            TokenType::GREATER => owned("GREATER"),
            TokenType::GREATER_EQUAL => owned("GREATER_EQUAL"),
            TokenType::LESS => owned("LESS"),
            TokenType::LESS_EQUAL => owned("LESS_EQUAL"),
            TokenType::IDENTIFIER => owned("IDENTIFIER"),
            TokenType::STRING => owned("STRING"),
            TokenType::NUMBER => owned("NUMBER"),
            TokenType::AND => owned("AND"),
            TokenType::CLASS => owned("CLASS"),
            TokenType::ELSE => owned("ELSE"),
            TokenType::FALSE => owned("FALSE"),
            TokenType::FUN => owned("FUN"),
            TokenType::FOR => owned("FOR"),
            TokenType::IF => owned("IF"),
            TokenType::NIL => owned("NIL"),
            TokenType::OR => owned("OR"),
            TokenType::PRINT => owned("PRINT"),
            TokenType::RETURN => owned("RETURN"),
            TokenType::SUPER => owned("SUPER"),
            TokenType::THIS => owned("THIS"),
            TokenType::TRUE => owned("TRUE"),
            TokenType::VAR => owned("VAR"),
            TokenType::CONST => owned("CONST"),
            TokenType::WHILE => owned("WHILE"),
            TokenType::EOF => owned("EOF"),
            TokenType::COMMENT => owned("COMMENT"),
            TokenType::BLOCK_COMMENT => owned("BLOCK_COMMENT"),
            TokenType::DUMP => owned("DUMP"),
        }
    }
}

/// What goes wrong between a token and a value.
#[derive(Debug, PartialEq)]
pub enum ParserError {
    UnsupportedAction,
    Generic(String),
}

/// A [`ParserError`] with its message as a sequence of characters.
pub enum ParserErrorView {
    UnsupportedAction,
    Generic(Seq<char>),
}

impl View for ParserError {
    type V = ParserErrorView;

    open spec fn view(&self) -> ParserErrorView {
        match self {
            ParserError::UnsupportedAction => ParserErrorView::UnsupportedAction,
            ParserError::Generic(s) => ParserErrorView::Generic(s@),
        }
    }
}

impl ParserErrorView {
    /// The text of the error.
    pub open spec fn text(self) -> Seq<char> {
        match self {
            ParserErrorView::UnsupportedAction => "Unsupported Action"@,
            ParserErrorView::Generic(s) => "Generic Error("@ + s + ")"@,
        }
    }
}

impl Clone for ParserError {
    fn clone(&self) -> (r: Self)
        ensures
            r@ == self@,
    {
        match self {
            ParserError::UnsupportedAction => ParserError::UnsupportedAction,
            ParserError::Generic(s) => ParserError::Generic(s.clone()),
        }
    }
}

impl ParserError {
    /// The text of the error.
    pub fn to_text(&self) -> (r: String)
        ensures
            r@ == self@.text(),
    {
        match self {
            ParserError::UnsupportedAction => owned("Unsupported Action"),
            ParserError::Generic(s) => {
                let head = joined(&owned("Generic Error("), s);
                joined(&head, &owned(")"))
            },
        }
    }
}

/// Every failure of the scanner, the parser and the interpreter.
#[derive(Debug, PartialEq)]
pub enum LoxError {
    InvalidToken { token_type: TokenType, line: usize, loc: usize },
    RuntimeException,
    ExitCode(i32),
    ScanError(char),
    ParseError(ParserError),
}

/// A [`LoxError`] with its text as sequences of characters.
pub enum LoxErrorView {
    InvalidToken { token_type: TokenType, line: usize, loc: usize },
    RuntimeException,
    ExitCode(i32),
    ScanError(char),
    ParseError(ParserErrorView),
}

impl View for LoxError {
    type V = LoxErrorView;

    open spec fn view(&self) -> LoxErrorView {
        match self {
            LoxError::InvalidToken { token_type, line, loc } => LoxErrorView::InvalidToken {
                token_type: *token_type,
                line: *line,
                loc: *loc,
            },
            LoxError::RuntimeException => LoxErrorView::RuntimeException,
            LoxError::ExitCode(c) => LoxErrorView::ExitCode(*c),
            LoxError::ScanError(c) => LoxErrorView::ScanError(*c),
            LoxError::ParseError(e) => LoxErrorView::ParseError(e@),
        }
    }
}

impl LoxErrorView {
    /// The text of the error.
    pub open spec fn text(self) -> Seq<char> {
        match self {
            LoxErrorView::RuntimeException => "Unhandled runtime exception"@,
            LoxErrorView::ExitCode(c) => "Lox exited with code "@ + decimal(c as int),
            LoxErrorView::ScanError(c) => "Error while reading char "@.push(c),
            LoxErrorView::ParseError(e) => "Parser error: "@ + e.text(),
            LoxErrorView::InvalidToken { token_type, line, loc } => "Invalid token "@
                + token_type.name_spec() + " at "@ + digits_of(line as nat) + ":"@ + digits_of(
                loc as nat,
            ),
        }
    }
}

impl Clone for LoxError {
    fn clone(&self) -> (r: Self)
        ensures
            r@ == self@,
    {
        match self {
            LoxError::InvalidToken { token_type, line, loc } => LoxError::InvalidToken {
                token_type: *token_type,
                line: *line,
                loc: *loc,
            },
            LoxError::RuntimeException => LoxError::RuntimeException,
            LoxError::ExitCode(c) => LoxError::ExitCode(*c),
            LoxError::ScanError(c) => LoxError::ScanError(*c),
            LoxError::ParseError(e) => LoxError::ParseError(e.clone()),
        }
    }
}

impl LoxError {
    /// The text of the error.
    pub fn to_text(&self) -> (r: String)
        ensures
            r@ == self@.text(),
    {
        match self {
            LoxError::RuntimeException => owned("Unhandled runtime exception"),
            LoxError::ExitCode(c) => joined(
                &owned("Lox exited with code "),
                &integer_text(*c as i64),
            ),
            LoxError::ScanError(c) => {
                let mut s = owned("Error while reading char ");
                s.push(*c);
                s
            },
            LoxError::ParseError(e) => joined(&owned("Parser error: "), &e.to_text()),
            LoxError::InvalidToken { token_type, line, loc } => {
                let a = joined(&owned("Invalid token "), &token_type.name());
                let b = joined(&a, &owned(" at "));
                let c = joined(&b, &natural_text(*line as u64));
                let d = joined(&c, &owned(":"));
                joined(&d, &natural_text(*loc as u64))
            },
        }
    }
}

impl From<ParserError> for LoxError {
    fn from(value: ParserError) -> (r: Self) {
        LoxError::ParseError(value)
    }
}

impl vstd::std_specs::convert::FromSpecImpl<ParserError> for LoxError {
    open spec fn obeys_from_spec() -> bool {
        true
    }

    open spec fn from_spec(value: ParserError) -> Self {
        LoxError::ParseError(value)
    }
}

/// A runtime value, and the literal that a token carries.
#[derive(Debug, PartialEq)]
pub enum TokenLiteral {
    Empty,
    Integer(i64),
    /// A double, by its bits.
    Float(u64),
    String(String),
    Boolean(bool),
}

/// A [`TokenLiteral`] with its text as a sequence of characters.
pub enum Value {
    Empty,
    Integer(i64),
    Float(u64),
    Text(Seq<char>),
    Boolean(bool),
}

impl View for TokenLiteral {
    type V = Value;

    open spec fn view(&self) -> Value {
        match self {
            TokenLiteral::Empty => Value::Empty,
            TokenLiteral::Integer(i) => Value::Integer(*i),
            TokenLiteral::Float(b) => Value::Float(*b),
            TokenLiteral::String(s) => Value::Text(s@),
            TokenLiteral::Boolean(b) => Value::Boolean(*b),
        }
    }
}

impl Clone for TokenLiteral {
    fn clone(&self) -> (r: Self)
        ensures
            r@ == self@,
    {
        match self {
            TokenLiteral::Empty => TokenLiteral::Empty,
            TokenLiteral::Integer(i) => TokenLiteral::Integer(*i),
            TokenLiteral::Float(b) => TokenLiteral::Float(*b),
            TokenLiteral::String(s) => TokenLiteral::String(s.clone()),
            TokenLiteral::Boolean(b) => TokenLiteral::Boolean(*b),
        }
    }
}

/// The outcome of an operation on values, as the contracts speak of it.
pub type Computed = Result<Value, ParserErrorView>;

/// The view of what an operation on values returns.
pub open spec fn computed(res: Result<TokenLiteral, ParserError>) -> Computed {
    match res {
        Ok(v) => Ok(v@),
        Err(e) => Err(e@),
    }
}

/// Whether an integer fits in 64 bits with a sign.
pub open spec fn fits(i: int) -> bool {
    i64::MIN <= i <= i64::MAX
}

/// An integer result: the integer where it fits, a failure where it does not.
pub open spec fn integer_or_failure(i: int) -> Computed {
    if fits(i) {
        Ok(Value::Integer(i as i64))
    } else {
        Err(ParserErrorView::UnsupportedAction)
    }
}

/// `base` multiplied by itself `exp` times.
pub open spec fn power(base: int, exp: nat) -> int
    decreases exp,
{
    if exp == 0 {
        1
    } else {
        power(base, (exp - 1) as nat) * base
    }
}

impl Value {
    /// Empty, zero (of either number kind) and `false` are false; everything
    /// else, every string included, is true.
    pub open spec fn truthy(self) -> bool {
        match self {
            Value::Empty => false,
            Value::Integer(n) => n != 0,
            Value::Float(b) => !is_zero(b),
            Value::Text(_) => true,
            Value::Boolean(b) => b,
        }
    }

    /// Whether the value is an integer or a double.
    pub open spec fn is_number(self) -> bool {
        self is Integer || self is Float
    }

    /// The canonical text of a value: nothing for Empty, the decimal numeral
    /// of an integer, `true` or `false`, a string as it is, and for a double
    /// the text that the float unit renders; the unit is consulted for a
    /// double and for nothing else.
    pub open spec fn text(self, o: Oracle, at: int) -> Told<Seq<char>> {
        match self {
            Value::Empty => after(at, Seq::empty()),
            Value::Integer(i) => after(at, decimal(i as int)),
            Value::Float(b) => after(at + 1, (o.render)(at, b)),
            Value::Text(s) => after(at, s),
            Value::Boolean(b) => after(
                at,
                if b {
                    "true"@
                } else {
                    "false"@
                },
            ),
        }
    }

    /// A number as the operand of a float operation.
    pub open spec fn operand(self) -> Option<FloatOperand> {
        match self {
            Value::Integer(i) => Some(FloatOperand::Integer(i)),
            Value::Float(b) => Some(FloatOperand::Bits(b)),
            _ => None,
        }
    }

    /// Equality of values. Numbers equal by number, strings only strings,
    /// booleans only booleans, and Empty equals nothing. An integer against a
    /// double is compared as doubles, after the float unit has promoted the
    /// integer.
    pub open spec fn equals(self, rhs: Value, o: Oracle, at: int) -> Told<bool> {
        match (self, rhs) {
            (Value::Integer(a), Value::Integer(b)) => after(at, a == b),
            (Value::Float(a), Value::Float(b)) => after(at, equal(a, b)),
            (Value::Integer(a), Value::Float(b)) => after(
                at + 1,
                equal(b, (o.compute)(at, FloatRequestView::Promote(a))),
            ),
            (Value::Float(a), Value::Integer(b)) => after(
                at + 1,
                equal(a, (o.compute)(at, FloatRequestView::Promote(b))),
            ),
            (Value::Text(a), Value::Text(b)) => after(at, a == b),
            (Value::Boolean(a), Value::Boolean(b)) => after(at, a == b),
            _ => after(at, false),
        }
    }

    /// Unary minus: defined on integers whose negation fits.
    pub open spec fn negated(self) -> Computed {
        match self {
            Value::Integer(n) => integer_or_failure(-(n as int)),
            _ => Err(ParserErrorView::UnsupportedAction),
        }
    }

    /// An ordering operator on two values: a boolean for two integers, Empty for
    /// two numbers of which one is a double, a failure otherwise.
    pub open spec fn compared(self, op: TokenType, rhs: Value) -> Computed {
        match (self, rhs) {
            (Value::Integer(a), Value::Integer(b)) => match op {
                TokenType::GREATER => Ok(Value::Boolean(a > b)),
                TokenType::GREATER_EQUAL => Ok(Value::Boolean(a >= b)),
                TokenType::LESS => Ok(Value::Boolean(a < b)),
                TokenType::LESS_EQUAL => Ok(Value::Boolean(a <= b)),
                _ => Err(ParserErrorView::UnsupportedAction),
            },
            _ => if self.is_number() && rhs.is_number() {
                Ok(Value::Empty)
            } else {
                Err(ParserErrorView::UnsupportedAction)
            },
        }
    }
}

/// What the float unit is asked to compute for `lhs op rhs`, if anything: both
/// operands are numbers, and either one of them is a double or the operator is
/// division. A power with an integer base is never the unit's.
pub open spec fn float_request_of(op: FloatOp, lhs: Value, rhs: Value) -> Option<FloatRequestView> {
    match (lhs.operand(), rhs.operand()) {
        (Some(l), Some(r)) => if op == FloatOp::Pow {
            if lhs is Float {
                Some(FloatRequestView::Binary(op, l, r))
            } else {
                None
            }
        } else if op == FloatOp::Div || lhs is Float || rhs is Float {
            Some(FloatRequestView::Binary(op, l, r))
        } else {
            None
        },
        _ => None,
    }
}

/// The result of an arithmetic operator on two values.
///
/// - two integers: the integer sum, difference, product or power, a failure
///   where it does not fit or the exponent is negative; the quotient is a double;
/// - two numbers otherwise: the double that the float unit computes for
///   [`float_request_of`]; but an integer raised to a double is Empty;
/// - `+` with a string on either side: the texts of both sides, concatenated;
/// - anything else: a failure.
pub open spec fn arithmetic(op: FloatOp, lhs: Value, rhs: Value, o: Oracle, at: int) -> Told<
    Computed,
> {
    if lhs.is_number() && rhs.is_number() {
        match float_request_of(op, lhs, rhs) {
            Some(request) => after(at + 1, Ok(Value::Float((o.compute)(at, request)))),
            None => after(
                at,
                match (lhs, rhs) {
                    (Value::Integer(a), Value::Integer(b)) => match op {
                        FloatOp::Add => integer_or_failure(a + b),
                        FloatOp::Sub => integer_or_failure(a - b),
                        FloatOp::Mul => integer_or_failure(a * b),
                        FloatOp::Pow => if b < 0 {
                            Err(ParserErrorView::UnsupportedAction)
                        } else {
                            integer_or_failure(power(a as int, b as nat))
                        },
                        FloatOp::Div => Err(ParserErrorView::UnsupportedAction),
                    },
                    _ => Ok(Value::Empty),
                },
            ),
        }
    } else if op == FloatOp::Add && (lhs is Text || rhs is Text) {
        let left = lhs.text(o, at);
        let right = rhs.text(o, left.asked);
        after(right.asked, Ok(Value::Text(left.value + right.value)))
    } else {
        after(at, Err(ParserErrorView::UnsupportedAction))
    }
}

/// The arithmetic operator that a token kind stands for.
pub open spec fn float_op_of(op: TokenType) -> Option<FloatOp> {
    match op {
        TokenType::PLUS => Some(FloatOp::Add),
        TokenType::MINUS => Some(FloatOp::Sub),
        TokenType::STAR => Some(FloatOp::Mul),
        TokenType::SLASH => Some(FloatOp::Div),
        TokenType::EXPONENT => Some(FloatOp::Pow),
        _ => None,
    }
}

/// The token kinds of the four ordering operators.
pub open spec fn is_ordering(op: TokenType) -> bool {
    op == TokenType::GREATER || op == TokenType::GREATER_EQUAL || op == TokenType::LESS || op
        == TokenType::LESS_EQUAL
}

/// The token kinds that are binary operators.
pub open spec fn is_binary_operator(op: TokenType) -> bool {
    float_op_of(op) is Some || is_ordering(op) || op == TokenType::BANG_EQUAL || op
        == TokenType::EQUAL_EQUAL
}

/// The result of a binary operator on two values. A token kind that is no
/// binary operator gives a failure.
pub open spec fn binary(op: TokenType, lhs: Value, rhs: Value, o: Oracle, at: int) -> Told<
    Computed,
> {
    if float_op_of(op) is Some {
        arithmetic(float_op_of(op)->0, lhs, rhs, o, at)
    } else if is_ordering(op) {
        after(at, lhs.compared(op, rhs))
    } else if op == TokenType::EQUAL_EQUAL {
        let e = lhs.equals(rhs, o, at);
        after(e.asked, Ok(Value::Boolean(e.value)))
    } else if op == TokenType::BANG_EQUAL {
        let e = lhs.equals(rhs, o, at);
        after(e.asked, Ok(Value::Boolean(!e.value)))
    } else {
        after(at, Err(ParserErrorView::UnsupportedAction))
    }
}

/// The result of a unary operator: `!` negates truthiness, `-` negates an
/// integer, any other token kind is a failure.
pub open spec fn unary(op: TokenType, operand: Value) -> Computed {
    match op {
        TokenType::MINUS => operand.negated(),
        TokenType::BANG => Ok(Value::Boolean(!operand.truthy())),
        _ => Err(ParserErrorView::UnsupportedAction),
    }
}

/// The magnitude of an integer.
pub open spec fn abs(x: int) -> int {
    if x < 0 {
        -x
    } else {
        x
    }
}

proof fn lemma_power_of_unit(base: int, exp: nat)
    requires
        base == 0 || base == 1 || base == -1,
    ensures
        base == 0 && exp > 0 ==> power(base, exp) == 0,
        base == 1 ==> power(base, exp) == 1,
        base == -1 ==> power(base, exp) == (if exp % 2 == 0 {
            1int
        } else {
            -1int
        }),
    decreases exp,
{
    if exp > 0 {
        lemma_power_of_unit(base, (exp - 1) as nat);
    }
}

proof fn lemma_power_doubles(base: int, exp: nat)
    requires
        abs(base) >= 2,
    ensures
        abs(power(base, exp + 1)) >= 2 * abs(power(base, exp)),
        abs(power(base, exp)) >= 1,
    decreases exp,
{
    let p = power(base, exp);
    assert(power(base, exp + 1) == p * base);
    if exp > 0 {
        lemma_power_doubles(base, (exp - 1) as nat);
    }
    assert(abs(p * base) >= 2 * abs(p)) by (nonlinear_arith)
        requires
            abs(base) >= 2,
    ;
}

proof fn lemma_power_grows(base: int, low: nat, high: nat)
    requires
        abs(base) >= 2,
        low <= high,
    ensures
        abs(power(base, high)) >= abs(power(base, low)),
        low < high ==> abs(power(base, high)) >= 2 * abs(power(base, low)),
    decreases high,
{
    if low < high {
        lemma_power_grows(base, low, (high - 1) as nat);
        lemma_power_doubles(base, (high - 1) as nat);
    }
}

/// `base` raised to `exp` by repeated multiplication; `None` where the
/// exponent is negative or the power does not fit in 64 bits with a sign.
pub fn integer_power(base: i64, exp: i64) -> (r: Option<i64>)
    ensures
        match r {
            Some(v) => exp >= 0 && v == power(base as int, exp as nat),
            None => exp < 0 || !fits(power(base as int, exp as nat)),
        },
{
    if exp < 0 {
        return None;
    }
    if exp == 0 {
        return Some(1);
    }
    if base == 0 || base == 1 || base == -1 {
        proof {
            lemma_power_of_unit(base as int, exp as nat);
        }
        return Some(
            if base == 0 {
                0
            } else if base == 1 || exp % 2 == 0 {
                1
            } else {
                -1
            },
        );
    }
    let mut acc: i64 = 1;
    let mut i: i64 = 0;
    while i < exp
        invariant
            0 <= i <= exp,
            acc == power(base as int, i as nat),
            abs(base as int) >= 2,
        decreases exp - i,
    {
        match acc.checked_mul(base) {
            Some(v) => {
                assert(power(base as int, (i + 1) as nat) == power(base as int, i as nat) * base);
                acc = v;
                i += 1;
            },
            None => {
                proof {
                    assert(power(base as int, (i + 1) as nat) == acc * base);
                    lemma_power_grows(base as int, (i + 1) as nat, exp as nat);
                }
                return None;
            },
        }
    }
    Some(acc)
}

fn integer_result(v: Option<i64>) -> (res: Result<TokenLiteral, ParserError>)
    ensures
        v matches Some(i) ==> computed(res) == Ok::<Value, ParserErrorView>(Value::Integer(i)),
        v is None ==> computed(res) == Err::<Value, ParserErrorView>(
            ParserErrorView::UnsupportedAction,
        ),
{
    match v {
        Some(i) => Ok(TokenLiteral::Integer(i)),
        None => Err(ParserError::UnsupportedAction),
    }
}

impl TokenLiteral {
    /// Whether the value counts as true in a condition.
    pub fn is_truthy(&self) -> (r: bool)
        ensures
            r == self@.truthy(),
    {
        match self {
            TokenLiteral::Empty => false,
            TokenLiteral::Integer(n) => *n != 0,
            TokenLiteral::Float(b) => !float_is_zero(*b),
            TokenLiteral::String(_) => true,
            TokenLiteral::Boolean(b) => *b,
        }
    }

    /// Whether the value is an integer or a double.
    pub fn is_number(&self) -> (r: bool)
        ensures
            r == self@.is_number(),
    {
        match self {
            TokenLiteral::Integer(_) => true,
            TokenLiteral::Float(_) => true,
            _ => false,
        }
    }

    fn operand(&self) -> (r: Option<FloatOperand>)
        ensures
            r == self@.operand(),
    {
        match self {
            TokenLiteral::Integer(i) => Some(FloatOperand::Integer(*i)),
            TokenLiteral::Float(b) => Some(FloatOperand::Bits(*b)),
            _ => None,
        }
    }

    /// The canonical text of the value.
    pub fn to_text<F: FloatUnit>(&self, fpu: &mut Floats<F>) -> (r: String)
        ensures
            final(fpu).follows(old(fpu)),
            forall|o: Oracle| #[trigger]
                final(fpu).told(old(fpu), o) ==> after(final(fpu).asked(), r@) == self@.text(
                    o,
                    old(fpu).asked(),
                ),
    {
        let r = match self {
            TokenLiteral::Empty => String::new(),
            TokenLiteral::Integer(i) => integer_text(*i),
            TokenLiteral::Float(b) => fpu.render(*b),
            TokenLiteral::String(s) => s.clone(),
            TokenLiteral::Boolean(b) => if *b {
                owned("true")
            } else {
                owned("false")
            },
        };
        proof {
            fpu.lemma_follows(old(fpu));
        }
        r
    }

    /// Equality of two values.
    pub fn is_equal<F: FloatUnit>(&self, rhs: TokenLiteral, fpu: &mut Floats<F>) -> (r: bool)
        ensures
            final(fpu).follows(old(fpu)),
            forall|o: Oracle| #[trigger]
                final(fpu).told(old(fpu), o) ==> after(final(fpu).asked(), r) == self@.equals(
                    rhs@,
                    o,
                    old(fpu).asked(),
                ),
    {
        let r = match (self, &rhs) {
            (TokenLiteral::Integer(a), TokenLiteral::Integer(b)) => *a == *b,
            (TokenLiteral::Float(a), TokenLiteral::Float(b)) => floats_equal(*a, *b),
            (TokenLiteral::Integer(a), TokenLiteral::Float(b)) => {
                let promoted = fpu.compute(&FloatRequest::Promote(*a));
                floats_equal(*b, promoted)
            },
            (TokenLiteral::Float(a), TokenLiteral::Integer(b)) => {
                let promoted = fpu.compute(&FloatRequest::Promote(*b));
                floats_equal(*a, promoted)
            },
            (TokenLiteral::String(a), TokenLiteral::String(b)) => *a == *b,
            (TokenLiteral::Boolean(a), TokenLiteral::Boolean(b)) => *a == *b,
            _ => false,
        };
        proof {
            fpu.lemma_follows(old(fpu));
        }
        r
    }

    /// What the float unit has to compute for `lhs op rhs`, if anything.
    pub fn float_request(op: FloatOp, lhs: &TokenLiteral, rhs: &TokenLiteral) -> (q: Option<
        FloatRequest,
    >)
        ensures
            match q {
                Some(request) => float_request_of(op, lhs@, rhs@) == Some(request@),
                None => float_request_of(op, lhs@, rhs@) is None,
            },
    {
        match (lhs.operand(), rhs.operand()) {
            (Some(l), Some(r)) => {
                let left_is_float = match lhs {
                    TokenLiteral::Float(_) => true,
                    _ => false,
                };
                let right_is_float = match rhs {
                    TokenLiteral::Float(_) => true,
                    _ => false,
                };
                if op == FloatOp::Pow {
                    if left_is_float {
                        Some(FloatRequest::Binary(op, l, r))
                    } else {
                        None
                    }
                } else if op == FloatOp::Div || left_is_float || right_is_float {
                    Some(FloatRequest::Binary(op, l, r))
                } else {
                    None
                }
            },
            _ => None,
        }
    }

    /// An arithmetic operator on two values.
    pub fn arithmetic<F: FloatUnit>(
        op: FloatOp,
        lhs: &TokenLiteral,
        rhs: &TokenLiteral,
        fpu: &mut Floats<F>,
    ) -> (res: Result<TokenLiteral, ParserError>)
        ensures
            final(fpu).follows(old(fpu)),
            forall|o: Oracle| #[trigger]
                final(fpu).told(old(fpu), o) ==> after(final(fpu).asked(), computed(res))
                    == arithmetic(op, lhs@, rhs@, o, old(fpu).asked()),
    {
        if let Some(request) = Self::float_request(op, lhs, rhs) {
            let answer = fpu.compute(&request);
            proof {
                fpu.lemma_follows(old(fpu));
            }
            return Ok(TokenLiteral::Float(answer));
        }
        proof {
            fpu.lemma_follows(old(fpu));
        }
        match (lhs, rhs) {
            (TokenLiteral::Integer(a), TokenLiteral::Integer(b)) => match op {
                FloatOp::Add => integer_result(a.checked_add(*b)),
                FloatOp::Sub => integer_result(a.checked_sub(*b)),
                FloatOp::Mul => integer_result(a.checked_mul(*b)),
                FloatOp::Pow => integer_result(integer_power(*a, *b)),
                FloatOp::Div => Err(ParserError::UnsupportedAction),
            },
            _ => {
                if lhs.is_number() && rhs.is_number() {
                    Ok(TokenLiteral::Empty)
                } else {
                    let left_is_text = match lhs {
                        TokenLiteral::String(_) => true,
                        _ => false,
                    };
                    let right_is_text = match rhs {
                        TokenLiteral::String(_) => true,
                        _ => false,
                    };
                    if op == FloatOp::Add && (left_is_text || right_is_text) {
                        let ghost start = *fpu;
                        let l = lhs.to_text(fpu);
                        let ghost middle = *fpu;
                        let r = rhs.to_text(fpu);
                        let joined_text = joined(&l, &r);
                        proof {
                            crate::floats::lemma_extends_in_parts(&start, &middle, fpu);
                            fpu.lemma_follows(&start);
                        }
                        assert forall|o: Oracle| #[trigger] fpu.told(&start, o) implies after(
                            fpu.asked(),
                            Ok::<Value, ParserErrorView>(Value::Text(joined_text@)),
                        ) == arithmetic(op, lhs@, rhs@, o, start.asked()) by {
                            crate::floats::lemma_told_in_parts(&start, &middle, fpu, o);
                        }
                        Ok(TokenLiteral::String(joined_text))
                    } else {
                        Err(ParserError::UnsupportedAction)
                    }
                }
            },
        }
    }

    /// `self + rhs`: the sum of two numbers, or the concatenation of the two
    /// texts where either side is a string.
    pub fn add<F: FloatUnit>(self, rhs: TokenLiteral, fpu: &mut Floats<F>) -> (res: Result<
        TokenLiteral,
        ParserError,
    >)
        ensures
            final(fpu).follows(old(fpu)),
            forall|o: Oracle| #[trigger]
                final(fpu).told(old(fpu), o) ==> after(final(fpu).asked(), computed(res))
                    == arithmetic(FloatOp::Add, self@, rhs@, o, old(fpu).asked()),
    {
        Self::arithmetic(FloatOp::Add, &self, &rhs, fpu)
    }

    /// `self - rhs` on two numbers.
    pub fn sub<F: FloatUnit>(self, rhs: TokenLiteral, fpu: &mut Floats<F>) -> (res: Result<
        TokenLiteral,
        ParserError,
    >)
        ensures
            final(fpu).follows(old(fpu)),
            forall|o: Oracle| #[trigger]
                final(fpu).told(old(fpu), o) ==> after(final(fpu).asked(), computed(res))
                    == arithmetic(FloatOp::Sub, self@, rhs@, o, old(fpu).asked()),
    {
        Self::arithmetic(FloatOp::Sub, &self, &rhs, fpu)
    }

    /// `self * rhs` on two numbers.
    pub fn mul<F: FloatUnit>(self, rhs: TokenLiteral, fpu: &mut Floats<F>) -> (res: Result<
        TokenLiteral,
        ParserError,
    >)
        ensures
            final(fpu).follows(old(fpu)),
            forall|o: Oracle| #[trigger]
                final(fpu).told(old(fpu), o) ==> after(final(fpu).asked(), computed(res))
                    == arithmetic(FloatOp::Mul, self@, rhs@, o, old(fpu).asked()),
    {
        Self::arithmetic(FloatOp::Mul, &self, &rhs, fpu)
    }

    /// `self / rhs` on two numbers: always a double.
    pub fn div<F: FloatUnit>(self, rhs: TokenLiteral, fpu: &mut Floats<F>) -> (res: Result<
        TokenLiteral,
        ParserError,
    >)
        ensures
            final(fpu).follows(old(fpu)),
            forall|o: Oracle| #[trigger]
                final(fpu).told(old(fpu), o) ==> after(final(fpu).asked(), computed(res))
                    == arithmetic(FloatOp::Div, self@, rhs@, o, old(fpu).asked()),
    {
        Self::arithmetic(FloatOp::Div, &self, &rhs, fpu)
    }

    /// `self` raised to `rhs`.
    pub fn pow<F: FloatUnit>(&self, rhs: TokenLiteral, fpu: &mut Floats<F>) -> (res: Result<
        TokenLiteral,
        ParserError,
    >)
        ensures
            final(fpu).follows(old(fpu)),
            forall|o: Oracle| #[trigger]
                final(fpu).told(old(fpu), o) ==> after(final(fpu).asked(), computed(res))
                    == arithmetic(FloatOp::Pow, self@, rhs@, o, old(fpu).asked()),
    {
        Self::arithmetic(FloatOp::Pow, self, &rhs, fpu)
    }

    /// Unary minus.
    pub fn negate(&self) -> (res: Result<TokenLiteral, ParserError>)
        ensures
            computed(res) == self@.negated(),
    {
        match self {
            TokenLiteral::Integer(n) => integer_result(0i64.checked_sub(*n)),
            _ => Err(ParserError::UnsupportedAction),
        }
    }

    /// One of the four ordering operators.
    pub fn compare(&self, op: TokenType, rhs: &TokenLiteral) -> (res: Result<
        TokenLiteral,
        ParserError,
    >)
        ensures
            computed(res) == self@.compared(op, rhs@),
    {
        match (self, rhs) {
            (TokenLiteral::Integer(a), TokenLiteral::Integer(b)) => match op {
                TokenType::GREATER => Ok(TokenLiteral::Boolean(*a > *b)),
                TokenType::GREATER_EQUAL => Ok(TokenLiteral::Boolean(*a >= *b)),
                TokenType::LESS => Ok(TokenLiteral::Boolean(*a < *b)),
                TokenType::LESS_EQUAL => Ok(TokenLiteral::Boolean(*a <= *b)),
                _ => Err(ParserError::UnsupportedAction),
            },
            _ => if self.is_number() && rhs.is_number() {
                Ok(TokenLiteral::Empty)
            } else {
                Err(ParserError::UnsupportedAction)
            },
        }
    }
}

/// The arithmetic operator that a token kind stands for.
pub fn float_op(op: TokenType) -> (r: Option<FloatOp>)
    ensures
        r == float_op_of(op),
{
    match op {
        TokenType::PLUS => Some(FloatOp::Add),
        TokenType::MINUS => Some(FloatOp::Sub),
        TokenType::STAR => Some(FloatOp::Mul),
        TokenType::SLASH => Some(FloatOp::Div),
        TokenType::EXPONENT => Some(FloatOp::Pow),
        _ => None,
    }
}

/// Applies a binary operator to two values.
pub fn apply_binary<F: FloatUnit>(
    op: TokenType,
    lhs: &TokenLiteral,
    rhs: &TokenLiteral,
    fpu: &mut Floats<F>,
) -> (res: Result<TokenLiteral, ParserError>)
    ensures
        final(fpu).follows(old(fpu)),
        forall|o: Oracle| #[trigger]
            final(fpu).told(old(fpu), o) ==> after(final(fpu).asked(), computed(res)) == binary(
                op,
                lhs@,
                rhs@,
                o,
                old(fpu).asked(),
            ),
{
    if let Some(f) = float_op(op) {
        return TokenLiteral::arithmetic(f, lhs, rhs, fpu);
    }
    proof {
        fpu.lemma_follows(old(fpu));
    }
    match op {
        TokenType::GREATER | TokenType::GREATER_EQUAL | TokenType::LESS | TokenType::LESS_EQUAL => {
            lhs.compare(op, rhs)
        },
        TokenType::EQUAL_EQUAL => Ok(TokenLiteral::Boolean(lhs.is_equal(rhs.clone(), fpu))),
        TokenType::BANG_EQUAL => Ok(TokenLiteral::Boolean(!lhs.is_equal(rhs.clone(), fpu))),
        _ => Err(ParserError::UnsupportedAction),
    }
}

/// Applies a unary operator to a value.
pub fn apply_unary(op: TokenType, operand: &TokenLiteral) -> (res: Result<
    TokenLiteral,
    ParserError,
>)
    ensures
        computed(res) == unary(op, operand@),
{
    match op {
        TokenType::MINUS => operand.negate(),
        TokenType::BANG => Ok(TokenLiteral::Boolean(!operand.is_truthy())),
        _ => Err(ParserError::UnsupportedAction),
    }
}

/// A token: its kind, the text it was read from, the literal it carries and
/// the line it stands on.
#[derive(Debug, PartialEq)]
pub struct Token {
    pub token_type: TokenType,
    pub lexeme: String,
    pub literal: TokenLiteral,
    pub line: usize,
}

/// A [`Token`] with its text as sequences of characters.
pub struct TokenView {
    pub token_type: TokenType,
    pub lexeme: Seq<char>,
    pub literal: Value,
    pub line: usize,
}

impl View for Token {
    type V = TokenView;

    open spec fn view(&self) -> TokenView {
        TokenView {
            token_type: self.token_type,
            lexeme: self.lexeme@,
            literal: self.literal@,
            line: self.line,
        }
    }
}

impl Clone for Token {
    fn clone(&self) -> (r: Self)
        ensures
            r@ == self@,
    {
        Token {
            token_type: self.token_type,
            lexeme: self.lexeme.clone(),
            literal: self.literal.clone(),
            line: self.line,
        }
    }
}

/// The views of a vector of tokens.
pub open spec fn token_views(tokens: Seq<Token>) -> Seq<TokenView> {
    Seq::new(tokens.len(), |i: int| tokens[i]@)
}

/// Copies a vector of tokens.
pub fn clone_tokens(tokens: &Vec<Token>) -> (r: Vec<Token>)
    ensures
        token_views(r@) == token_views(tokens@),
{
    let mut r: Vec<Token> = Vec::new();
    let mut i: usize = 0;
    while i < tokens.len()
        invariant
            i <= tokens.len(),
            r.len() == i,
            forall|j: int| 0 <= j < i ==> r[j]@ == tokens[j]@,
        decreases tokens.len() - i,
    {
        r.push(tokens[i].clone());
        i += 1;
    }
    assert(token_views(r@) =~= token_views(tokens@));
    r
}

/// An expression of the language.
#[derive(Debug)]
pub enum Expression {
    Assign { name: Token, value: Box<Expression> },
    Logical { left: Box<Expression>, operator: Token, right: Box<Expression> },
    Call { callee: Box<Expression>, paren: Token, arguments: Vec<Expression> },
    Binary { left: Box<Expression>, operator: Token, right: Box<Expression> },
    Unary { operator: Token, right: Box<Expression> },
    Grouping(Box<Expression>),
    Literal(TokenLiteral),
    Variable(Token),
    Empty,
}

/// An [`Expression`] with its text as sequences of characters.
pub enum Expr {
    Assign { name: TokenView, value: Box<Expr> },
    Logical { left: Box<Expr>, operator: TokenView, right: Box<Expr> },
    Call { callee: Box<Expr>, paren: TokenView, arguments: Seq<Expr> },
    Binary { left: Box<Expr>, operator: TokenView, right: Box<Expr> },
    Unary { operator: TokenView, right: Box<Expr> },
    Grouping(Box<Expr>),
    Literal(Value),
    Variable(TokenView),
    Empty,
}

/// The view of an expression.
pub open spec fn expr_view(e: Expression) -> Expr
    decreases e,
{
    match e {
        Expression::Assign { name, value } => Expr::Assign {
            name: name@,
            value: Box::new(expr_view(*value)),
        },
        Expression::Logical { left, operator, right } => Expr::Logical {
            left: Box::new(expr_view(*left)),
            operator: operator@,
            right: Box::new(expr_view(*right)),
        },
        Expression::Call { callee, paren, arguments } => Expr::Call {
            callee: Box::new(expr_view(*callee)),
            paren: paren@,
            arguments: expr_views(arguments@),
        },
        Expression::Binary { left, operator, right } => Expr::Binary {
            left: Box::new(expr_view(*left)),
            operator: operator@,
            right: Box::new(expr_view(*right)),
        },
        Expression::Unary { operator, right } => Expr::Unary {
            operator: operator@,
            right: Box::new(expr_view(*right)),
        },
        Expression::Grouping(inner) => Expr::Grouping(Box::new(expr_view(*inner))),
        Expression::Literal(v) => Expr::Literal(v@),
        Expression::Variable(t) => Expr::Variable(t@),
        Expression::Empty => Expr::Empty,
    }
}

impl View for Expression {
    type V = Expr;

    open spec fn view(&self) -> Expr {
        expr_view(*self)
    }
}

/// The views of a sequence of expressions.
pub open spec fn expr_views(items: Seq<Expression>) -> Seq<Expr>
    decreases items,
{
    Seq::new(
        items.len(),
        |i: int|
            if 0 <= i < items.len() {
                expr_view(items[i])
            } else {
                Expr::Empty
            },
    )
}

impl Clone for Expression {
    fn clone(&self) -> (r: Self)
        ensures
            r@ == self@,
        decreases self,
    {
        match self {
            Expression::Assign { name, value } => Expression::Assign {
                name: name.clone(),
                value: Box::new((**value).clone()),
            },
            Expression::Logical { left, operator, right } => Expression::Logical {
                left: Box::new((**left).clone()),
                operator: operator.clone(),
                right: Box::new((**right).clone()),
            },
            Expression::Call { callee, paren, arguments } => {
                let mut copies: Vec<Expression> = Vec::new();
                let mut i: usize = 0;
                while i < arguments.len()
                    invariant
                        i <= arguments.len(),
                        copies.len() == i,
                        forall|j: int| 0 <= j < i ==> copies[j]@ == arguments[j]@,
                        decreases_to!(self => arguments),
                    decreases arguments.len() - i,
                {
                    copies.push(arguments[i].clone());
                    i += 1;
                }
                assert(expr_views(copies@) =~= expr_views(arguments@));
                Expression::Call {
                    callee: Box::new((**callee).clone()),
                    paren: paren.clone(),
                    arguments: copies,
                }
            },
            Expression::Binary { left, operator, right } => Expression::Binary {
                left: Box::new((**left).clone()),
                operator: operator.clone(),
                right: Box::new((**right).clone()),
            },
            Expression::Unary { operator, right } => Expression::Unary {
                operator: operator.clone(),
                right: Box::new((**right).clone()),
            },
            Expression::Grouping(inner) => Expression::Grouping(Box::new((**inner).clone())),
            Expression::Literal(v) => Expression::Literal(v.clone()),
            Expression::Variable(t) => Expression::Variable(t.clone()),
            Expression::Empty => Expression::Empty,
        }
    }
}

/// The value of an expression without variables, assignments or calls. A
/// variable stands for the literal of its token; an operand that fails makes
/// the whole expression fail, the left one first; assignments, `and`, `or`
/// and calls are failures.
pub open spec fn constant(e: Expr, o: Oracle, at: int) -> Told<Computed>
    decreases e,
{
    match e {
        Expr::Binary { left, operator, right } => {
            let l = constant(*left, o, at);
            match l.value {
                Ok(a) => {
                    let r = constant(*right, o, l.asked);
                    match r.value {
                        Ok(b) => binary(operator.token_type, a, b, o, r.asked),
                        Err(_) => r,
                    }
                },
                Err(_) => l,
            }
        },
        Expr::Unary { operator, right } => {
            let r = constant(*right, o, at);
            match r.value {
                Ok(v) => after(r.asked, unary(operator.token_type, v)),
                Err(_) => r,
            }
        },
        Expr::Grouping(inner) => constant(*inner, o, at),
        Expr::Literal(v) => after(at, Ok(v)),
        Expr::Empty => after(at, Ok(Value::Empty)),
        Expr::Variable(t) => after(at, Ok(t.literal)),
        Expr::Assign { .. } => after(at, Err(ParserErrorView::UnsupportedAction)),
        Expr::Logical { .. } => after(at, Err(ParserErrorView::UnsupportedAction)),
        Expr::Call { .. } => after(at, Err(ParserErrorView::UnsupportedAction)),
    }
}

impl Expression {
    /// Evaluates an expression that needs no environment.
    pub fn evaluate<F: FloatUnit>(&self, fpu: &mut Floats<F>) -> (res: Result<
        TokenLiteral,
        ParserError,
    >)
        ensures
            final(fpu).follows(old(fpu)),
            forall|o: Oracle| #[trigger]
                final(fpu).told(old(fpu), o) ==> after(final(fpu).asked(), computed(res))
                    == constant(self@, o, old(fpu).asked()),
        decreases self,
    {
        let ghost start = *fpu;
        proof {
            fpu.lemma_follows(&start);
        }
        match self {
            Expression::Binary { left, operator, right } => {
                let l = match left.evaluate(fpu) {
                    Ok(v) => v,
                    Err(e) => {
                        return Err(e);
                    },
                };
                let ghost after_left = *fpu;
                let right_res = right.evaluate(fpu);
                let ghost after_right = *fpu;
                proof {
                    crate::floats::lemma_extends_in_parts(&start, &after_left, &after_right);
                    fpu.lemma_follows(&start);
                }
                let r = match right_res {
                    Ok(v) => v,
                    Err(e) => {
                        assert forall|o: Oracle| #[trigger] fpu.told(&start, o) implies after(
                            fpu.asked(),
                            Err::<Value, ParserErrorView>(e@),
                        ) == constant(self@, o, start.asked()) by {
                            crate::floats::lemma_told_in_parts(&start, &after_left, fpu, o);
                        }
                        return Err(e);
                    },
                };
                let res = apply_binary(operator.token_type, &l, &r, fpu);
                proof {
                    crate::floats::lemma_extends_in_parts(&start, &after_right, fpu);
                    fpu.lemma_follows(&start);
                }
                assert forall|o: Oracle| #[trigger] fpu.told(&start, o) implies after(
                    fpu.asked(),
                    computed(res),
                ) == constant(self@, o, start.asked()) by {
                    crate::floats::lemma_told_in_parts(&start, &after_right, fpu, o);
                    crate::floats::lemma_told_in_parts(&start, &after_left, &after_right, o);
                }
                res
            },
            Expression::Unary { operator, right } => {
                let v = match right.evaluate(fpu) {
                    Ok(v) => v,
                    Err(e) => {
                        return Err(e);
                    },
                };
                apply_unary(operator.token_type, &v)
            },
            Expression::Grouping(inner) => inner.evaluate(fpu),
            Expression::Literal(v) => Ok(v.clone()),
            Expression::Empty => Ok(TokenLiteral::Empty),
            Expression::Variable(t) => Ok(t.literal.clone()),
            Expression::Assign { .. } => Err(ParserError::UnsupportedAction),
            Expression::Logical { .. } => Err(ParserError::UnsupportedAction),
            Expression::Call { .. } => Err(ParserError::UnsupportedAction),
        }
    }
}

/// The arithmetic operators on two integers: the sum, the difference and the
/// product are integers, and failures where they do not fit; the power is an
/// integer, and a failure where it does not fit or the exponent is negative;
/// none of them consults the float unit. The quotient is the double that the
/// float unit computes from the two integers.
pub proof fn integer_operators(a: i64, b: i64, o: Oracle, at: int)
    ensures
        binary(TokenType::PLUS, Value::Integer(a), Value::Integer(b), o, at) == after(
            at,
            integer_or_failure(a + b),
        ),
        binary(TokenType::MINUS, Value::Integer(a), Value::Integer(b), o, at) == after(
            at,
            integer_or_failure(a - b),
        ),
        binary(TokenType::STAR, Value::Integer(a), Value::Integer(b), o, at) == after(
            at,
            integer_or_failure(a * b),
        ),
        b >= 0 ==> binary(TokenType::EXPONENT, Value::Integer(a), Value::Integer(b), o, at)
            == after(at, integer_or_failure(power(a as int, b as nat))),
        b < 0 ==> binary(TokenType::EXPONENT, Value::Integer(a), Value::Integer(b), o, at)
            == after(at, Err::<Value, ParserErrorView>(ParserErrorView::UnsupportedAction)),
        binary(TokenType::SLASH, Value::Integer(a), Value::Integer(b), o, at) == after(
            at + 1,
            Ok::<Value, ParserErrorView>(
                Value::Float(
                    (o.compute)(
                        at,
                        FloatRequestView::Binary(
                            FloatOp::Div,
                            FloatOperand::Integer(a),
                            FloatOperand::Integer(b),
                        ),
                    ),
                ),
            ),
        ),
{
}

/// An operator between two literals is, as a constant, the operator on their
/// values.
pub proof fn constant_of_literals(
    left: Value,
    operator: TokenView,
    right: Value,
    o: Oracle,
    at: int,
)
    ensures
        constant(
            Expr::Binary {
                left: Box::new(Expr::Literal(left)),
                operator,
                right: Box::new(Expr::Literal(right)),
            },
            o,
            at,
        ) == binary(operator.token_type, left, right, o, at),
{
    reveal_with_fuel(constant, 2);
}

/// `+` on strings is associative: the texts are joined in their order,
/// however the sum is grouped.
pub proof fn concatenation_is_associative(
    a: Seq<char>,
    b: Seq<char>,
    c: Seq<char>,
    o: Oracle,
    at: int,
)
    ensures
        arithmetic(FloatOp::Add, Value::Text(a + b), Value::Text(c), o, at) == arithmetic(
            FloatOp::Add,
            Value::Text(a),
            Value::Text(b + c),
            o,
            at,
        ),
        arithmetic(FloatOp::Add, Value::Text(a), Value::Text(b), o, at) == after(
            at,
            Ok::<Value, ParserErrorView>(Value::Text(a + b)),
        ),
{
    assert((a + b) + c =~= a + (b + c));
}

} // verus!
