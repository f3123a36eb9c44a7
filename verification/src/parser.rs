//! The parser: from tokens to statements, by recursive descent.
//!
//! The grammar is written down twice: as functions on a sequence of tokens and
//! a position, which are its definition, and as the methods of [`Parser`], each
//! proved to return what the definition says and to stop where it says.
use vstd::prelude::*;
use crate::ast::{token_views, Expr, Expression, LoxError, LoxErrorView, ParserError};
use crate::ast::{ParserErrorView, Token, TokenLiteral, TokenType, TokenView, Value};
use crate::floats::{FloatUnit, Floats, Oracle};
use crate::scanner::Scanner;
use crate::stmt::{clone_statements, stmt_views, Statement, Stmt};
use crate::text::{chars_of, clone_texts, extended_by, joined, natural_text, owned, texts};
use crate::text::{lemma_extended_by_nothing, lemma_extended_by_one};

verus! {

/// The kind of the token at `pos`; the end marker where there is none.
pub open spec fn kind_at(ts: Seq<TokenView>, pos: int) -> TokenType {
    if 0 <= pos < ts.len() {
        ts[pos].token_type
    } else {
        TokenType::EOF
    }
}

/// Whether the tokens are used up at `pos`.
pub open spec fn at_end(ts: Seq<TokenView>, pos: int) -> bool {
    kind_at(ts, pos) == TokenType::EOF
}

/// Whether a token of kind `kind` stands at `pos`.
pub open spec fn check_at(ts: Seq<TokenView>, pos: int, kind: TokenType) -> bool {
    !at_end(ts, pos) && kind_at(ts, pos) == kind
}

/// What parsing one construct comes to: the construct or what is wrong, and
/// the position at which the parser then stands.
pub struct Parsed<T> {
    pub result: Result<T, Seq<char>>,
    pub next: int,
}

/// The construct `value`, with the parser left at `next`.
pub open spec fn done<T>(value: T, next: int) -> Parsed<T> {
    Parsed { result: Ok(value), next }
}

/// A failure with the parser left at `next`.
pub open spec fn failed<T>(message: Seq<char>, next: int) -> Parsed<T> {
    Parsed { result: Err(message), next }
}

/// The token that has to stand at `pos`.
pub open spec fn expect(
    ts: Seq<TokenView>,
    pos: int,
    kind: TokenType,
    message: Seq<char>,
) -> Parsed<TokenView> {
    if check_at(ts, pos, kind) {
        done(ts[pos], pos + 1)
    } else {
        failed(message, pos)
    }
}

/// The binary operators of each level of precedence, from the tightest: 0 for
/// `/ * **`, 1 for `- +`, 2 for the orderings, 3 for `!= ==`, 4 for `and`,
/// 5 for `or`.
pub open spec fn operator_of(level: nat, kind: TokenType) -> bool {
    if level == 0 {
        kind == TokenType::SLASH || kind == TokenType::STAR || kind == TokenType::EXPONENT
    } else if level == 1 {
        kind == TokenType::MINUS || kind == TokenType::PLUS
    } else if level == 2 {
        kind == TokenType::GREATER || kind == TokenType::GREATER_EQUAL || kind == TokenType::LESS
            || kind == TokenType::LESS_EQUAL
    } else if level == 3 {
        kind == TokenType::BANG_EQUAL || kind == TokenType::EQUAL_EQUAL
    } else if level == 4 {
        kind == TokenType::AND
    } else if level == 5 {
        kind == TokenType::OR
    } else {
        false
    }
}

/// The node for `left operator right` at a level: `and` and `or` short-circuit,
/// the others do not.
pub open spec fn node(level: nat, left: Expr, operator: TokenView, right: Expr) -> Expr {
    if level >= 4 {
        Expr::Logical { left: Box::new(left), operator, right: Box::new(right) }
    } else {
        Expr::Binary { left: Box::new(left), operator, right: Box::new(right) }
    }
}

/// primary: `false`, `true`, `nil`, a number, a string, an expression in
/// parentheses, or a name.
pub open spec fn primary(ts: Seq<TokenView>, pos: int) -> Parsed<Expr>
    decreases ts.len() - pos, 0int,
{
    let kind = kind_at(ts, pos);
    if kind == TokenType::FALSE {
        done(Expr::Literal(Value::Boolean(false)), pos + 1)
    } else if kind == TokenType::TRUE {
        done(Expr::Literal(Value::Boolean(true)), pos + 1)
    } else if kind == TokenType::NIL {
        done(Expr::Literal(Value::Empty), pos + 1)
    } else if kind == TokenType::NUMBER || kind == TokenType::STRING {
        done(Expr::Literal(ts[pos].literal), pos + 1)
    } else if kind == TokenType::LEFT_PAREN {
        let inner = expression(ts, pos + 1);
        match inner.result {
            Ok(e) => match expect(
                ts,
                inner.next,
                TokenType::RIGHT_PAREN,
                "Expected ')' after expression."@,
            ).result {
                Ok(_) => done(Expr::Grouping(Box::new(e)), inner.next + 1),
                Err(m) => failed(m, inner.next),
            },
            Err(m) => failed(m, inner.next),
        }
    } else if kind == TokenType::IDENTIFIER {
        done(Expr::Variable(ts[pos]), pos + 1)
    } else {
        failed("Expression Expected"@, pos)
    }
}

/// The arguments of a call from `pos` on, after those in `so_far`: expressions
/// with commas between.
pub open spec fn arguments(ts: Seq<TokenView>, pos: int, so_far: Seq<Expr>) -> Parsed<Seq<Expr>>
    decreases ts.len() - pos, 30int,
{
    let item = expression(ts, pos);
    match item.result {
        Ok(e) => if check_at(ts, item.next, TokenType::COMMA) && item.next >= pos {
            arguments(ts, item.next + 1, so_far.push(e))
        } else {
            done(so_far.push(e), item.next)
        },
        Err(m) => failed(m, item.next),
    }
}

/// The rest of a call of `callee` whose opening parenthesis stands before
/// `pos`.
pub open spec fn finish_call(ts: Seq<TokenView>, pos: int, callee: Expr) -> Parsed<Expr>
    decreases ts.len() - pos, 31int,
{
    let list = if check_at(ts, pos, TokenType::RIGHT_PAREN) {
        done(Seq::empty(), pos)
    } else {
        arguments(ts, pos, Seq::empty())
    };
    match list.result {
        Ok(items) => match expect(
            ts,
            list.next,
            TokenType::RIGHT_PAREN,
            "Expect ')' after arguments."@,
        ).result {
            Ok(paren) => done(
                Expr::Call { callee: Box::new(callee), paren, arguments: items },
                list.next + 1,
            ),
            Err(m) => failed(m, list.next),
        },
        Err(m) => failed(m, list.next),
    }
}

/// The calls that follow the expression `callee`, one after another.
pub open spec fn calls(ts: Seq<TokenView>, pos: int, callee: Expr) -> Parsed<Expr>
    decreases ts.len() - pos, 14int,
{
    if check_at(ts, pos, TokenType::LEFT_PAREN) {
        let call = finish_call(ts, pos + 1, callee);
        match call.result {
            Ok(e) => if pos < call.next <= ts.len() {
                calls(ts, call.next, e)
            } else {
                call
            },
            Err(_) => call,
        }
    } else {
        done(callee, pos)
    }
}

/// call: a primary and the calls that follow it.
pub open spec fn call(ts: Seq<TokenView>, pos: int) -> Parsed<Expr>
    decreases ts.len() - pos, 1int,
{
    let first = primary(ts, pos);
    match first.result {
        Ok(e) => if pos < first.next <= ts.len() {
            calls(ts, first.next, e)
        } else {
            first
        },
        Err(_) => first,
    }
}

/// unary: `!` or `-` before a unary, or a call.
pub open spec fn unary(ts: Seq<TokenView>, pos: int) -> Parsed<Expr>
    decreases ts.len() - pos, 2int,
{
    if check_at(ts, pos, TokenType::BANG) || check_at(ts, pos, TokenType::MINUS) {
        let right = unary(ts, pos + 1);
        match right.result {
            Ok(e) => done(Expr::Unary { operator: ts[pos], right: Box::new(e) }, right.next),
            Err(m) => failed(m, right.next),
        }
    } else {
        call(ts, pos)
    }
}

/// An operand at a level: a unary at the tightest, else the level below.
pub open spec fn operand(ts: Seq<TokenView>, pos: int, level: nat) -> Parsed<Expr>
    decreases ts.len() - pos, 3 + 2 * level,
{
    if level == 0 {
        unary(ts, pos)
    } else {
        binary(ts, pos, (level - 1) as nat)
    }
}

/// The operators and operands of a level that follow `left`; they associate to
/// the left.
pub open spec fn operators(ts: Seq<TokenView>, pos: int, level: nat, left: Expr) -> Parsed<Expr>
    decreases ts.len() - pos, 3 + 2 * level,
{
    if !at_end(ts, pos) && operator_of(level, kind_at(ts, pos)) {
        let right = operand(ts, pos + 1, level);
        match right.result {
            Ok(e) => if pos < right.next <= ts.len() {
                operators(ts, right.next, level, node(level, left, ts[pos], e))
            } else {
                right
            },
            Err(_) => right,
        }
    } else {
        done(left, pos)
    }
}

/// A level of binary operators: an operand, then operators and operands.
pub open spec fn binary(ts: Seq<TokenView>, pos: int, level: nat) -> Parsed<Expr>
    decreases ts.len() - pos, 4 + 2 * level,
{
    let first = operand(ts, pos, level);
    match first.result {
        Ok(e) => if pos < first.next <= ts.len() {
            operators(ts, first.next, level, e)
        } else {
            first
        },
        Err(_) => first,
    }
}

/// assignment: an `or` level, and, where `=` follows, an assignment whose
/// value is assigned to it; what stands left of `=` must be a name.
pub open spec fn assignment(ts: Seq<TokenView>, pos: int) -> Parsed<Expr>
    decreases ts.len() - pos, 20int,
{
    let target = binary(ts, pos, 5);
    match target.result {
        Ok(e) => if check_at(ts, target.next, TokenType::EQUAL) && target.next >= pos {
            let value = assignment(ts, target.next + 1);
            match value.result {
                Ok(v) => match e {
                    Expr::Variable(name) => done(
                        Expr::Assign { name, value: Box::new(v) },
                        value.next,
                    ),
                    _ => failed("Invalid assignment target."@, value.next),
                },
                Err(_) => value,
            }
        } else {
            target
        },
        Err(_) => target,
    }
}

/// expression: an assignment.
pub open spec fn expression(ts: Seq<TokenView>, pos: int) -> Parsed<Expr>
    decreases ts.len() - pos, 21int,
{
    assignment(ts, pos)
}

/// A failure that no input leads to: it stands where a construct would go on
/// from a position before the one it began at.
pub open spec fn stuck<T>(next: int) -> Parsed<T> {
    failed(Seq::empty(), next)
}

/// An expression where one may stand, or nothing where `absent` holds.
pub open spec fn optional(ts: Seq<TokenView>, pos: int, absent: bool) -> Parsed<Option<Expr>>
    decreases ts.len() - pos, 22int,
{
    if absent {
        done(None, pos)
    } else {
        let e = expression(ts, pos);
        match e.result {
            Ok(x) => done(Some(x), e.next),
            Err(m) => failed(m, e.next),
        }
    }
}

/// An expression and a semicolon.
pub open spec fn expression_statement(ts: Seq<TokenView>, pos: int) -> Parsed<Stmt>
    decreases ts.len() - pos, 23int,
{
    let e = expression(ts, pos);
    match e.result {
        Ok(x) => match expect(
            ts,
            e.next,
            TokenType::SEMICOLON,
            "Expected ';' after expression."@,
        ).result {
            Ok(_) => done(Stmt::Expression(x), e.next + 1),
            Err(m) => failed(m, e.next),
        },
        Err(m) => failed(m, e.next),
    }
}

/// What follows `print`: an expression and a semicolon.
pub open spec fn print_statement(ts: Seq<TokenView>, pos: int) -> Parsed<Stmt>
    decreases ts.len() - pos, 24int,
{
    let e = expression(ts, pos);
    match e.result {
        Ok(x) => match expect(
            ts,
            e.next,
            TokenType::SEMICOLON,
            "Expected ';' after expression."@,
        ).result {
            Ok(_) => done(Stmt::Print(x), e.next + 1),
            Err(m) => failed(m, e.next),
        },
        Err(m) => failed(m, e.next),
    }
}

/// What follows `return`: a value, if any, and a semicolon.
pub open spec fn return_statement(ts: Seq<TokenView>, pos: int, keyword: TokenView) -> Parsed<Stmt>
    decreases ts.len() - pos, 24int,
{
    let value = optional(ts, pos, check_at(ts, pos, TokenType::SEMICOLON));
    match value.result {
        Ok(v) => match expect(
            ts,
            value.next,
            TokenType::SEMICOLON,
            "Expect ';' after return value."@,
        ).result {
            Ok(_) => done(Stmt::Return(keyword, v), value.next + 1),
            Err(m) => failed(m, value.next),
        },
        Err(m) => failed(m, value.next),
    }
}

/// What follows `var`: a name, an initializer after `=` if there is one, and a
/// semicolon.
pub open spec fn var_declaration(ts: Seq<TokenView>, pos: int) -> Parsed<Stmt>
    decreases ts.len() - pos, 24int,
{
    match expect(ts, pos, TokenType::IDENTIFIER, "Expected variable name"@).result {
        Ok(name) => {
            let init = if check_at(ts, pos + 1, TokenType::EQUAL) {
                optional(ts, pos + 2, false)
            } else {
                done(None, pos + 1)
            };
            match init.result {
                Ok(i) => match expect(
                    ts,
                    init.next,
                    TokenType::SEMICOLON,
                    "Expected ';' after variale declaration."@,
                ).result {
                    Ok(_) => done(Stmt::Var(name, i), init.next + 1),
                    Err(m) => failed(m, init.next),
                },
                Err(m) => failed(m, init.next),
            }
        },
        Err(m) => failed(m, pos),
    }
}

/// What follows `dump`: a semicolon.
pub open spec fn dump_statement(ts: Seq<TokenView>, pos: int) -> Parsed<Stmt> {
    match expect(ts, pos, TokenType::SEMICOLON, "Expected ; after dump statement."@).result {
        Ok(_) => done(Stmt::Dump, pos + 1),
        Err(m) => failed(m, pos),
    }
}

/// The statements of a block from `pos` on, after those in `so_far`, up to the
/// closing brace.
pub open spec fn block(ts: Seq<TokenView>, pos: int, so_far: Seq<Stmt>) -> Parsed<Seq<Stmt>>
    decreases ts.len() - pos, 42int,
{
    if check_at(ts, pos, TokenType::RIGHT_BRACE) || at_end(ts, pos) {
        match expect(ts, pos, TokenType::RIGHT_BRACE, "Expected '}' after block."@).result {
            Ok(_) => done(so_far, pos + 1),
            Err(m) => failed(m, pos),
        }
    } else {
        let item = declaration(ts, pos);
        match item.result {
            Ok(s) => if pos < item.next <= ts.len() {
                block(ts, item.next, so_far.push(s))
            } else {
                stuck(item.next)
            },
            Err(m) => failed(m, item.next),
        }
    }
}

/// A condition in parentheses, as it follows `if` and `while`.
pub open spec fn condition(
    ts: Seq<TokenView>,
    pos: int,
    before: Seq<char>,
    after: Seq<char>,
) -> Parsed<Expr>
    decreases ts.len() - pos, 22int,
{
    match expect(ts, pos, TokenType::LEFT_PAREN, before).result {
        Ok(_) => {
            let cond = expression(ts, pos + 1);
            match cond.result {
                Ok(c) => match expect(ts, cond.next, TokenType::RIGHT_PAREN, after).result {
                    Ok(_) => done(c, cond.next + 1),
                    Err(m) => failed(m, cond.next),
                },
                Err(m) => failed(m, cond.next),
            }
        },
        Err(m) => failed(m, pos),
    }
}

/// What follows `if`: a condition, a statement, and after `else` another.
pub open spec fn if_statement(ts: Seq<TokenView>, pos: int) -> Parsed<Stmt>
    decreases ts.len() - pos, 24int,
{
    let cond = condition(ts, pos, "Expect '(' after 'if'."@, "Expect ')' after if condition."@);
    match cond.result {
        Ok(c) => if pos < cond.next <= ts.len() {
            let then_branch = statement(ts, cond.next);
            match then_branch.result {
                Ok(t) => if check_at(ts, then_branch.next, TokenType::ELSE) && then_branch.next
                    >= pos {
                    let else_branch = statement(ts, then_branch.next + 1);
                    match else_branch.result {
                        Ok(e) => done(
                            Stmt::If(c, Box::new(t), Some(Box::new(e))),
                            else_branch.next,
                        ),
                        Err(m) => failed(m, else_branch.next),
                    }
                } else {
                    done(Stmt::If(c, Box::new(t), None), then_branch.next)
                },
                Err(m) => failed(m, then_branch.next),
            }
        } else {
            stuck(cond.next)
        },
        Err(m) => failed(m, cond.next),
    }
}

/// What follows `while`: a condition and a statement.
pub open spec fn while_statement(ts: Seq<TokenView>, pos: int) -> Parsed<Stmt>
    decreases ts.len() - pos, 24int,
{
    let cond = condition(ts, pos, "Expect '(' after 'while'."@, "Expect ')' after condition."@);
    match cond.result {
        Ok(c) => if pos < cond.next <= ts.len() {
            let body = statement(ts, cond.next);
            match body.result {
                Ok(b) => done(Stmt::While(c, Box::new(b)), body.next),
                Err(m) => failed(m, body.next),
            }
        } else {
            stuck(cond.next)
        },
        Err(m) => failed(m, cond.next),
    }
}

/// The first clause of a `for`: nothing but a semicolon, a variable
/// declaration, or an expression statement.
pub open spec fn for_initializer(ts: Seq<TokenView>, pos: int) -> Parsed<Option<Stmt>>
    decreases ts.len() - pos, 25int,
{
    if check_at(ts, pos, TokenType::SEMICOLON) {
        done(None, pos + 1)
    } else {
        let init = if check_at(ts, pos, TokenType::VAR) {
            var_declaration(ts, pos + 1)
        } else {
            expression_statement(ts, pos)
        };
        match init.result {
            Ok(s) => done(Some(s), init.next),
            Err(m) => failed(m, init.next),
        }
    }
}

/// The loop that a `for` stands for: the body and then the increment, as
/// long as the condition holds (always, where there is none), after the
/// initializer, in a block of their own.
pub open spec fn desugared(
    initializer: Option<Stmt>,
    cond: Option<Expr>,
    increment: Option<Expr>,
    body: Stmt,
) -> Stmt {
    let inner = match increment {
        Some(inc) => Stmt::Block(seq![body, Stmt::Expression(inc)]),
        None => body,
    };
    let test = match cond {
        Some(c) => c,
        None => Expr::Literal(Value::Boolean(true)),
    };
    let looping = Stmt::While(test, Box::new(inner));
    match initializer {
        Some(init) => Stmt::Block(seq![init, looping]),
        None => looping,
    }
}

/// What follows `for`: in parentheses an initializer, a condition and an
/// increment, each of which may be missing, and a statement.
pub open spec fn for_statement(ts: Seq<TokenView>, pos: int) -> Parsed<Stmt>
    decreases ts.len() - pos, 26int,
{
    match expect(ts, pos, TokenType::LEFT_PAREN, "Expect '(' after 'for'."@).result {
        Ok(_) => {
            let init = for_initializer(ts, pos + 1);
            match init.result {
                Ok(i) => if pos < init.next <= ts.len() {
                    let cond = optional(
                        ts,
                        init.next,
                        check_at(ts, init.next, TokenType::SEMICOLON),
                    );
                    match cond.result {
                        Ok(c) => match expect(
                            ts,
                            cond.next,
                            TokenType::SEMICOLON,
                            "Expect ';' after loop condition."@,
                        ).result {
                            Ok(_) => if pos <= cond.next {
                                let increment = optional(
                                    ts,
                                    cond.next + 1,
                                    check_at(ts, cond.next + 1, TokenType::RIGHT_PAREN),
                                );
                                match increment.result {
                                    Ok(n) => match expect(
                                        ts,
                                        increment.next,
                                        TokenType::RIGHT_PAREN,
                                        "Expect ')' after for clauses."@,
                                    ).result {
                                        Ok(_) => if pos <= increment.next {
                                            let body = statement(ts, increment.next + 1);
                                            match body.result {
                                                Ok(b) => done(desugared(i, c, n, b), body.next),
                                                Err(m) => failed(m, body.next),
                                            }
                                        } else {
                                            stuck(increment.next)
                                        },
                                        Err(m) => failed(m, increment.next),
                                    },
                                    Err(m) => failed(m, increment.next),
                                }
                            } else {
                                stuck(cond.next)
                            },
                            Err(m) => failed(m, cond.next),
                        },
                        Err(m) => failed(m, cond.next),
                    }
                } else {
                    stuck(init.next)
                },
                Err(m) => failed(m, init.next),
            }
        },
        Err(m) => failed(m, pos),
    }
}

/// The names of the parameters from `pos` on, after those in `so_far`, with
/// commas between.
pub open spec fn parameters(ts: Seq<TokenView>, pos: int, so_far: Seq<TokenView>) -> Parsed<
    Seq<TokenView>,
>
    decreases ts.len() - pos,
{
    match expect(ts, pos, TokenType::IDENTIFIER, "Expect parameter name."@).result {
        Ok(name) => if check_at(ts, pos + 1, TokenType::COMMA) {
            parameters(ts, pos + 2, so_far.push(name))
        } else {
            done(so_far.push(name), pos + 1)
        },
        Err(m) => failed(m, pos),
    }
}

/// The name and the parameters of a function, up to the brace that opens its
/// body.
pub open spec fn function_head(ts: Seq<TokenView>, pos: int) -> Parsed<
    (TokenView, Seq<TokenView>),
> {
    match expect(ts, pos, TokenType::IDENTIFIER, "Expect function name."@).result {
        Ok(name) => match expect(
            ts,
            pos + 1,
            TokenType::LEFT_PAREN,
            "Expect '(' after function name."@,
        ).result {
            Ok(_) => {
                let params = if check_at(ts, pos + 2, TokenType::RIGHT_PAREN) {
                    done(Seq::empty(), pos + 2)
                } else {
                    parameters(ts, pos + 2, Seq::empty())
                };
                match params.result {
                    Ok(names) => match expect(
                        ts,
                        params.next,
                        TokenType::RIGHT_PAREN,
                        "Expect ')' after parameters."@,
                    ).result {
                        Ok(_) => match expect(
                            ts,
                            params.next + 1,
                            TokenType::LEFT_BRACE,
                            "Expect '{' before function body."@,
                        ).result {
                            Ok(_) => done((name, names), params.next + 2),
                            Err(m) => failed(m, params.next + 1),
                        },
                        Err(m) => failed(m, params.next),
                    },
                    Err(m) => failed(m, params.next),
                }
            },
            Err(m) => failed(m, pos + 1),
        },
        Err(m) => failed(m, pos),
    }
}

/// What follows `fun`: a name, parameters in parentheses, and a block.
pub open spec fn function(ts: Seq<TokenView>, pos: int) -> Parsed<Stmt>
    decreases ts.len() - pos, 43int,
{
    let head = function_head(ts, pos);
    match head.result {
        Ok(h) => if pos < head.next <= ts.len() {
            let body = block(ts, head.next, Seq::empty());
            match body.result {
                Ok(b) => done(Stmt::Function(h.0, h.1, b), body.next),
                Err(m) => failed(m, body.next),
            }
        } else {
            stuck(head.next)
        },
        Err(m) => failed(m, head.next),
    }
}

/// statement: by its first token a print, a block, an `if`, a `while`, a `for`
/// or a `return`; anything else is an expression statement.
pub open spec fn statement(ts: Seq<TokenView>, pos: int) -> Parsed<Stmt>
    decreases ts.len() - pos, 40int,
{
    if check_at(ts, pos, TokenType::PRINT) {
        print_statement(ts, pos + 1)
    } else if check_at(ts, pos, TokenType::LEFT_BRACE) {
        let items = block(ts, pos + 1, Seq::empty());
        match items.result {
            Ok(b) => done(Stmt::Block(b), items.next),
            Err(m) => failed(m, items.next),
        }
    } else if check_at(ts, pos, TokenType::IF) {
        if_statement(ts, pos + 1)
    } else if check_at(ts, pos, TokenType::WHILE) {
        while_statement(ts, pos + 1)
    } else if check_at(ts, pos, TokenType::FOR) {
        for_statement(ts, pos + 1)
    } else if check_at(ts, pos, TokenType::RETURN) {
        return_statement(ts, pos + 1, ts[pos])
    } else {
        expression_statement(ts, pos)
    }
}

/// declaration: a function after `fun`, a variable after `var`, a dump after
/// `dump`; anything else is a statement.
pub open spec fn declaration(ts: Seq<TokenView>, pos: int) -> Parsed<Stmt>
    decreases ts.len() - pos, 41int,
{
    if check_at(ts, pos, TokenType::FUN) {
        function(ts, pos + 1)
    } else if check_at(ts, pos, TokenType::VAR) {
        var_declaration(ts, pos + 1)
    } else if check_at(ts, pos, TokenType::DUMP) {
        dump_statement(ts, pos + 1)
    } else {
        statement(ts, pos)
    }
}

/// The token kinds that a statement can begin with.
pub open spec fn begins_statement(kind: TokenType) -> bool {
    kind == TokenType::CLASS || kind == TokenType::FUN || kind == TokenType::VAR || kind
        == TokenType::FOR || kind == TokenType::IF || kind == TokenType::WHILE || kind
        == TokenType::PRINT || kind == TokenType::RETURN
}

/// The next boundary between statements at or after `pos`: the end, the
/// place after a semicolon, or a token that begins a statement.
pub open spec fn boundary(ts: Seq<TokenView>, pos: int) -> int
    decreases ts.len() - pos,
{
    if at_end(ts, pos) || kind_at(ts, pos - 1) == TokenType::SEMICOLON || begins_statement(
        kind_at(ts, pos),
    ) {
        pos
    } else {
        boundary(ts, pos + 1)
    }
}

/// Where the parser goes on after a failure at `pos`: past the token it
/// failed at, and on to the next boundary between statements.
pub open spec fn synchronized(ts: Seq<TokenView>, pos: int) -> int {
    if at_end(ts, pos) {
        pos
    } else {
        boundary(ts, pos + 1)
    }
}

/// The text of a report of the parser: the line, where on it, and what is
/// wrong.
pub open spec fn report_line(line: int, loc: Seq<char>, message: Seq<char>) -> Seq<char> {
    "[line "@ + crate::text::digits_of(line as nat) + "] Error "@ + loc + ": "@ + message
}

/// The token at `pos`, or the end marker on `end_line` where there is none.
pub open spec fn token_at(ts: Seq<TokenView>, pos: int, end_line: int) -> TokenView {
    if 0 <= pos < ts.len() {
        ts[pos]
    } else {
        TokenView {
            token_type: TokenType::EOF,
            lexeme: Seq::empty(),
            literal: Value::Empty,
            line: end_line as usize,
        }
    }
}

/// How a report names a token: by its text, or as the end.
pub open spec fn place(token: TokenView) -> Seq<char> {
    if token.token_type == TokenType::EOF {
        "at end"@
    } else {
        "at '"@ + token.lexeme + "'"@
    }
}

/// The report of a failure at a token: its line, the token, and the text of
/// the failure.
pub open spec fn token_report(token: TokenView, text: Seq<char>) -> Seq<char> {
    report_line(token.line as int, place(token), text)
}

/// The report of a parse failure with `message` at `pos`.
pub open spec fn failure_report(
    ts: Seq<TokenView>,
    pos: int,
    end_line: int,
    message: Seq<char>,
) -> Seq<char> {
    token_report(
        token_at(ts, pos, end_line),
        LoxErrorView::ParseError(ParserErrorView::Generic(message)).text(),
    )
}

/// What a parse has produced: the statements and the reports of what did not
/// parse.
pub struct Parse {
    pub statements: Seq<Stmt>,
    pub reports: Seq<Seq<char>>,
}

/// The parse of the tokens from `pos` on, after what `so_far` holds:
/// declaration by declaration to the end. A declaration that does not parse
/// is reported once, and the parse goes on at the next boundary between
/// statements.
#[verifier::opaque]
pub open spec fn parse(ts: Seq<TokenView>, pos: int, end_line: int, so_far: Parse) -> Parse
    decreases ts.len() - pos,
{
    if at_end(ts, pos) {
        so_far
    } else {
        let item = declaration(ts, pos);
        match item.result {
            Ok(s) => if pos < item.next <= ts.len() {
                parse(
                    ts,
                    item.next,
                    end_line,
                    Parse { statements: so_far.statements.push(s), reports: so_far.reports },
                )
            } else {
                so_far
            },
            Err(m) => {
                let resume = synchronized(ts, item.next);
                if pos < resume <= ts.len() {
                    parse(
                        ts,
                        resume,
                        end_line,
                        Parse {
                            statements: so_far.statements,
                            reports: so_far.reports.push(
                                failure_report(ts, item.next, end_line, m),
                            ),
                        },
                    )
                } else {
                    so_far
                }
            },
        }
    }
}

/// Whether an error is the parse failure with this message.
pub open spec fn is_failure(e: LoxError, message: Seq<char>) -> bool {
    e@ == LoxErrorView::ParseError(ParserErrorView::Generic(message))
}

/// The parse failure with this message.
fn failure(message: &str) -> (e: LoxError)
    ensures
        is_failure(e, message@),
{
    LoxError::ParseError(ParserError::Generic(owned(message)))
}

fn is_operator(level: u8, kind: TokenType) -> (r: bool)
    ensures
        r == operator_of(level as nat, kind),
{
    if level == 0 {
        kind == TokenType::SLASH || kind == TokenType::STAR || kind == TokenType::EXPONENT
    } else if level == 1 {
        kind == TokenType::MINUS || kind == TokenType::PLUS
    } else if level == 2 {
        kind == TokenType::GREATER || kind == TokenType::GREATER_EQUAL || kind == TokenType::LESS
            || kind == TokenType::LESS_EQUAL
    } else if level == 3 {
        kind == TokenType::BANG_EQUAL || kind == TokenType::EQUAL_EQUAL
    } else if level == 4 {
        kind == TokenType::AND
    } else if level == 5 {
        kind == TokenType::OR
    } else {
        false
    }
}

fn make_node(level: u8, left: Expression, operator: Token, right: Expression) -> (r: Expression)
    ensures
        r@ == node(level as nat, left@, operator@, right@),
{
    if level >= 4 {
        Expression::Logical { left: Box::new(left), operator, right: Box::new(right) }
    } else {
        Expression::Binary { left: Box::new(left), operator, right: Box::new(right) }
    }
}

fn begins(kind: TokenType) -> (r: bool)
    ensures
        r == begins_statement(kind),
{
    kind == TokenType::CLASS || kind == TokenType::FUN || kind == TokenType::VAR || kind
        == TokenType::FOR || kind == TokenType::IF || kind == TokenType::WHILE || kind
        == TokenType::PRINT || kind == TokenType::RETURN
}

/// The statement that a `for` stands for.
fn desugar(
    initializer: Option<Statement>,
    cond: Option<Expression>,
    increment: Option<Expression>,
    body: Statement,
) -> (r: Statement)
    ensures
        r@ == desugared(
            match initializer {
                Some(i) => Some(i@),
                None => None,
            },
            crate::stmt::optional_view(cond),
            crate::stmt::optional_view(increment),
            body@,
        ),
{
    let inner = match increment {
        Some(inc) => {
            let mut items: Vec<Statement> = Vec::new();
            items.push(body);
            items.push(Statement::Expression(inc));
            assert(stmt_views(items@) =~= seq![body@, Stmt::Expression(inc@)]);
            Statement::Block(items)
        },
        None => body,
    };
    let test = match cond {
        Some(c) => c,
        None => Expression::Literal(TokenLiteral::Boolean(true)),
    };
    let ghost inner_view = inner@;
    let ghost test_view = test@;
    let looping = Statement::While(test, Box::new(inner));
    assert(looping@ == Stmt::While(test_view, Box::new(inner_view)));
    match initializer {
        Some(init) => {
            let mut items: Vec<Statement> = Vec::new();
            let ghost first = init@;
            let ghost second = looping@;
            items.push(init);
            items.push(looping);
            assert(stmt_views(items@) =~= seq![first, second]);
            let r = Statement::Block(items);
            assert(r@ == Stmt::Block(seq![first, second]));
            r
        },
        None => looping,
    }
}

/// The views of the statements after one more.
pub proof fn lemma_views_push(items: Seq<Statement>, s: Statement)
    ensures
        stmt_views(items.push(s)) == stmt_views(items).push(s@),
{
    assert(stmt_views(items.push(s)) =~= stmt_views(items).push(s@));
}

/// The parser: the scanner whose tokens it reads, the place it has reached in
/// them, and the statements and reports it has produced.
#[derive(Debug)]
pub struct Parser {
    pub current: usize,
    pub line: usize,
    pub statements: Vec<Statement>,
    pub scanner: Scanner,
    pub had_error: bool,
    /// One line of text for each report, in the order they were made.
    pub diagnostics: Vec<String>,
}

impl Default for Parser {
    fn default() -> (r: Self)
        ensures
            r.current == 0,
            r.line == 0,
            r.statements@.len() == 0,
            !r.had_error,
            r.diagnostics@.len() == 0,
            r.scanner.tokens@.len() == 0,
            r.scanner.source@.len() == 0,
            r.scanner.current == 0,
            r.scanner.line == 1,
            !r.scanner.had_error,
            r.scanner.diagnostics@.len() == 0,
    {
        Parser {
            current: 0,
            line: 0,
            statements: Vec::new(),
            scanner: Scanner::default(),
            had_error: false,
            diagnostics: Vec::new(),
        }
    }
}

impl Clone for Parser {
    fn clone(&self) -> (r: Self)
        ensures
            r.current == self.current,
            r.line == self.line,
            r.had_error == self.had_error,
            stmt_views(r.statements@) == stmt_views(self.statements@),
            texts(r.diagnostics@) == texts(self.diagnostics@),
            r.tokens() == self.tokens(),
            r.scanner.source@ == self.scanner.source@,
            r.scanner.current == self.scanner.current,
            r.scanner.line == self.scanner.line,
    {
        Parser {
            current: self.current,
            line: self.line,
            statements: clone_statements(&self.statements),
            scanner: self.scanner.clone(),
            had_error: self.had_error,
            diagnostics: clone_texts(&self.diagnostics),
        }
    }
}

impl Parser {
    /// The tokens that the parser reads.
    pub open spec fn tokens(self) -> Seq<TokenView> {
        token_views(self.scanner.tokens@)
    }

    /// Whether `self` is `before` moved on to the position `next`, with
    /// nothing else changed.
    pub open spec fn at(self, before: Parser, next: int) -> bool {
        &&& self == (Parser { current: self.current, ..before })
        &&& self.current == next
        &&& before.current <= next
        &&& before.current <= before.scanner.tokens@.len() ==> next
            <= before.scanner.tokens@.len()
    }

    /// Whether `self` is further on in the tokens than `before`.
    pub open spec fn progressed(self, before: Parser) -> bool {
        before.current < self.current <= self.scanner.tokens@.len()
    }

    /// Whether the expression or the error in `res`, and the place where the
    /// parser stands, are what `p` says.
    pub open spec fn gave(
        self,
        before: Parser,
        res: Result<Expression, LoxError>,
        p: Parsed<Expr>,
    ) -> bool {
        &&& self.at(before, p.next)
        &&& match res {
            Ok(e) => p.result == Ok::<Expr, Seq<char>>(e@),
            Err(x) => p.result is Err && is_failure(x, p.result->Err_0),
        }
    }

    /// As [`Self::gave`], for a statement.
    pub open spec fn gave_statement(
        self,
        before: Parser,
        res: Result<Statement, LoxError>,
        p: Parsed<Stmt>,
    ) -> bool {
        &&& self.at(before, p.next)
        &&& match res {
            Ok(s) => p.result == Ok::<Stmt, Seq<char>>(s@) && self.progressed(before),
            Err(x) => p.result is Err && is_failure(x, p.result->Err_0),
        }
    }

    /// A parser at the start of no input.
    pub fn new() -> (r: Self)
        ensures
            r.current == 0,
            r.line == 1,
            r.statements@.len() == 0,
            !r.had_error,
            r.diagnostics@.len() == 0,
            r.scanner.tokens@.len() == 0,
            r.scanner.source@.len() == 0,
            r.scanner.current == 0,
            r.scanner.line == 1,
            !r.scanner.had_error,
            r.scanner.diagnostics@.len() == 0,
    {
        let mut p = Parser::default();
        p.line = 1;
        p
    }

    /// The kind of the token the parser stands at.
    fn kind(&self) -> (r: TokenType)
        ensures
            r == kind_at(self.tokens(), self.current as int),
            r != TokenType::EOF ==> self.current < self.scanner.tokens@.len() && self.current
                < usize::MAX,
    {
        if self.current >= self.scanner.tokens.len() {
            TokenType::EOF
        } else {
            self.scanner.tokens[self.current].token_type
        }
    }

    /// The end marker, which stands for the token past the last.
    fn end_token(&self) -> (r: Token)
        ensures
            r@ == (TokenView {
                token_type: TokenType::EOF,
                lexeme: Seq::empty(),
                literal: Value::Empty,
                line: self.line,
            }),
    {
        Token {
            token_type: TokenType::EOF,
            lexeme: String::new(),
            literal: TokenLiteral::Empty,
            line: self.line,
        }
    }

    /// The token before the one the parser stands at; the end marker where
    /// there is none.
    pub fn previous(&self) -> (r: Token)
        ensures
            r@ == (if 0 < self.current <= self.scanner.tokens@.len() {
                self.tokens()[self.current - 1]
            } else {
                token_at(self.tokens(), -1, self.line as int)
            }),
    {
        if self.current == 0 || self.current > self.scanner.tokens.len() {
            return self.end_token();
        }
        self.scanner.tokens[self.current - 1].clone()
    }

    /// Takes the token the parser stands at if its kind is `kind`.
    fn consume_if(&mut self, kind: TokenType) -> (r: bool)
        ensures
            r == check_at(old(self).tokens(), old(self).current as int, kind),
            final(self).at(
                *old(self),
                if r {
                    old(self).current + 1
                } else {
                    old(self).current as int
                },
            ),
    {
        if self.check(kind) {
            self.current += 1;
            true
        } else {
            false
        }
    }

    /// Takes the token the parser stands at if its kind is one of
    /// `token_types`.
    pub fn consume_if_type(&mut self, token_types: &[TokenType]) -> (r: bool)
        ensures
            r == (exists|i: int|
                0 <= i < token_types@.len() && check_at(
                    old(self).tokens(),
                    old(self).current as int,
                    #[trigger] token_types@[i],
                )),
            final(self).at(
                *old(self),
                if r {
                    old(self).current + 1
                } else {
                    old(self).current as int
                },
            ),
    {
        let mut i: usize = 0;
        while i < token_types.len()
            invariant
                i <= token_types@.len(),
                *self == *old(self),
                forall|j: int|
                    0 <= j < i ==> !check_at(
                        self.tokens(),
                        self.current as int,
                        #[trigger] token_types@[j],
                    ),
            decreases token_types.len() - i,
        {
            if self.check(token_types[i]) {
                self.current += 1;
                return true;
            }
            i += 1;
        }
        false
    }

    /// Whether a token of kind `token_type` stands next.
    pub fn check(&self, token_type: TokenType) -> (r: bool)
        ensures
            r == check_at(self.tokens(), self.current as int, token_type),
            r ==> self.current < self.scanner.tokens@.len() && self.current < usize::MAX,
    {
        if self.is_at_end() {
            return false;
        }
        self.kind() == token_type
    }

    /// Whether the tokens are used up.
    pub fn is_at_end(&self) -> (r: bool)
        ensures
            r == at_end(self.tokens(), self.current as int),
            !r ==> self.current < self.scanner.tokens@.len() && self.current < usize::MAX,
    {
        self.kind() == TokenType::EOF
    }

    /// Takes the token the parser stands at; at the end it takes nothing and
    /// returns the end marker.
    pub fn next(&mut self) -> (r: Token)
        ensures
            final(self).at(
                *old(self),
                if at_end(old(self).tokens(), old(self).current as int) {
                    old(self).current as int
                } else {
                    old(self).current + 1
                },
            ),
            !at_end(old(self).tokens(), old(self).current as int) ==> r@
                == old(self).tokens()[old(self).current as int],
            at_end(old(self).tokens(), old(self).current as int) ==> r@ == token_at(
                old(self).tokens(),
                -1,
                old(self).line as int,
            ),
    {
        if self.is_at_end() {
            return self.end_token();
        }
        self.current += 1;
        self.scanner.tokens[self.current - 1].clone()
    }

    /// The token the parser stands at, not taken; the end marker past the
    /// last token.
    pub fn peek(&self) -> (r: Token)
        ensures
            self.current < self.scanner.tokens@.len() ==> r@ == self.tokens()[self.current as int],
            self.current >= self.scanner.tokens@.len() ==> r@ == (TokenView {
                token_type: TokenType::EOF,
                lexeme: Seq::empty(),
                literal: Value::Empty,
                line: self.line,
            }),
    {
        if self.current >= self.scanner.tokens.len() {
            return self.end_token();
        }
        self.scanner.tokens[self.current].clone()
    }

    /// The same token as [`Self::peek`], but the end marker also where an end
    /// marker among the tokens is reached.
    pub fn peek_next(&self) -> (r: Token)
        ensures
            !at_end(self.tokens(), self.current as int) ==> r@
                == self.tokens()[self.current as int],
            at_end(self.tokens(), self.current as int) ==> r@ == (TokenView {
                token_type: TokenType::EOF,
                lexeme: Seq::empty(),
                literal: Value::Empty,
                line: self.line,
            }),
    {
        if self.is_at_end() {
            return self.end_token();
        }
        self.scanner.tokens[self.current].clone()
    }

    /// Takes the token the parser stands at, which has to be of kind
    /// `token_type`; where it is not, nothing is taken and the failure carries
    /// `err_msg`.
    pub fn consume(&mut self, token_type: TokenType, err_msg: String) -> (res: Result<
        Token,
        LoxError,
    >)
        ensures
            final(self).at(
                *old(self),
                expect(old(self).tokens(), old(self).current as int, token_type, err_msg@).next,
            ),
            match res {
                Ok(t) => expect(
                    old(self).tokens(),
                    old(self).current as int,
                    token_type,
                    err_msg@,
                ).result == Ok::<TokenView, Seq<char>>(t@),
                Err(e) => !check_at(old(self).tokens(), old(self).current as int, token_type)
                    && is_failure(e, err_msg@),
            },
    {
        if self.check(token_type) {
            return Ok(self.next());
        }
        Err(LoxError::ParseError(ParserError::Generic(err_msg)))
    }

    /// [`Self::consume`] with the message as a literal.
    fn expect_token(&mut self, token_type: TokenType, message: &str) -> (res: Result<
        Token,
        LoxError,
    >)
        ensures
            final(self).at(
                *old(self),
                expect(old(self).tokens(), old(self).current as int, token_type, message@).next,
            ),
            match res {
                Ok(t) => expect(
                    old(self).tokens(),
                    old(self).current as int,
                    token_type,
                    message@,
                ).result == Ok::<TokenView, Seq<char>>(t@),
                Err(e) => !check_at(old(self).tokens(), old(self).current as int, token_type)
                    && is_failure(e, message@),
            },
    {
        self.consume(token_type, owned(message))
    }

    /// primary: `false`, `true`, `nil`, a number, a string, an expression in
    /// parentheses, or a name.
    pub fn primary(&mut self) -> (res: Result<Expression, LoxError>)
        ensures
            final(self).gave(
                *old(self),
                res,
                primary(old(self).tokens(), old(self).current as int),
            ),
            res is Ok ==> final(self).progressed(*old(self)),
        decreases old(self).scanner.tokens.len() - old(self).current, 0int,
    {
        if self.consume_if(TokenType::FALSE) {
            return Ok(Expression::Literal(TokenLiteral::Boolean(false)));
        }
        if self.consume_if(TokenType::TRUE) {
            return Ok(Expression::Literal(TokenLiteral::Boolean(true)));
        }
        if self.consume_if(TokenType::NIL) {
            return Ok(Expression::Literal(TokenLiteral::Empty));
        }
        if self.check(TokenType::NUMBER) || self.check(TokenType::STRING) {
            let token = self.next();
            return Ok(Expression::Literal(token.literal));
        }
        if self.consume_if(TokenType::LEFT_PAREN) {
            let expr = match self.expression() {
                Ok(e) => e,
                Err(e) => {
                    return Err(e);
                },
            };
            return match self.expect_token(
                TokenType::RIGHT_PAREN,
                "Expected ')' after expression.",
            ) {
                Ok(_) => Ok(Expression::Grouping(Box::new(expr))),
                Err(e) => Err(e),
            };
        }
        if self.check(TokenType::IDENTIFIER) {
            let token = self.next();
            return Ok(Expression::Variable(token));
        }
        Err(failure("Expression Expected"))
    }

    /// One argument of a call, added to `items`, and the comma after it if
    /// there is one; whether there was one.
    fn argument_step(&mut self, items: &mut Vec<Expression>) -> (res: Result<bool, LoxError>)
        ensures
            final(self).at(*old(self), final(self).current as int),
            match res {
                Ok(more) => final(self).progressed(*old(self)) && arguments(
                    old(self).tokens(),
                    old(self).current as int,
                    crate::ast::expr_views(old(items)@),
                ) == (if more {
                    arguments(
                        old(self).tokens(),
                        final(self).current as int,
                        crate::ast::expr_views(final(items)@),
                    )
                } else {
                    done(crate::ast::expr_views(final(items)@), final(self).current as int)
                }),
                Err(x) => {
                    let p = arguments(
                        old(self).tokens(),
                        old(self).current as int,
                        crate::ast::expr_views(old(items)@),
                    );
                    p.result is Err && is_failure(x, p.result->Err_0) && p.next == final(
                        self).current
                },
            },
        decreases old(self).scanner.tokens.len() - old(self).current, 30int,
    {
        let item = match self.expression() {
            Ok(e) => e,
            Err(e) => {
                return Err(e);
            },
        };
        proof {
            assert(crate::ast::expr_views(items@.push(item)) =~= crate::ast::expr_views(
                items@,
            ).push(item@));
        }
        items.push(item);
        Ok(self.consume_if(TokenType::COMMA))
    }

    /// The rest of a call of `callee`, after the opening parenthesis.
    fn finish_call(&mut self, callee: Expression) -> (res: Result<Expression, LoxError>)
        ensures
            final(self).gave(
                *old(self),
                res,
                finish_call(old(self).tokens(), old(self).current as int, callee@),
            ),
            res is Ok ==> final(self).progressed(*old(self)),
        decreases old(self).scanner.tokens.len() - old(self).current, 31int,
    {
        let ghost before = *self;
        let mut items: Vec<Expression> = Vec::new();
        assert(crate::ast::expr_views(items@) =~= Seq::<Expr>::empty());
        let mut more = !self.check(TokenType::RIGHT_PAREN);
        let ghost list = if more {
            arguments(self.tokens(), self.current as int, Seq::empty())
        } else {
            done(Seq::empty(), self.current as int)
        };
        while more
            invariant
                before == *old(self),
                self.at(before, self.current as int),
                self.current == before.current || self.progressed(before),
                list == (if more {
                    arguments(self.tokens(), self.current as int, crate::ast::expr_views(items@))
                } else {
                    done(crate::ast::expr_views(items@), self.current as int)
                }),
                list == (if check_at(
                    before.tokens(),
                    before.current as int,
                    TokenType::RIGHT_PAREN,
                ) {
                    done(Seq::empty(), before.current as int)
                } else {
                    arguments(before.tokens(), before.current as int, Seq::empty())
                }),
            decreases self.scanner.tokens.len() - self.current + (if more {
                1int
            } else {
                0int
            }),
        {
            more = match self.argument_step(&mut items) {
                Ok(m) => m,
                Err(e) => {
                    return Err(e);
                },
            };
        }
        match self.expect_token(TokenType::RIGHT_PAREN, "Expect ')' after arguments.") {
            Ok(paren) => Ok(Expression::Call { callee: Box::new(callee), paren, arguments: items }),
            Err(e) => Err(e),
        }
    }

    /// One call of `callee`; an opening parenthesis stands next.
    fn call_step(&mut self, callee: Expression) -> (res: Result<Expression, LoxError>)
        requires
            check_at(old(self).tokens(), old(self).current as int, TokenType::LEFT_PAREN),
        ensures
            final(self).at(*old(self), final(self).current as int),
            match res {
                Ok(e) => final(self).progressed(*old(self)) && calls(
                    old(self).tokens(),
                    old(self).current as int,
                    callee@,
                ) == calls(old(self).tokens(), final(self).current as int, e@),
                Err(x) => {
                    let p = calls(old(self).tokens(), old(self).current as int, callee@);
                    p.result is Err && is_failure(x, p.result->Err_0) && p.next == final(
                        self).current
                },
            },
        decreases old(self).scanner.tokens.len() - old(self).current, 32int,
    {
        self.current += 1;
        self.finish_call(callee)
    }

    /// call: a primary, and as long as an opening parenthesis follows, a call
    /// of what stands before it.
    fn call(&mut self) -> (res: Result<Expression, LoxError>)
        ensures
            final(self).gave(*old(self), res, call(old(self).tokens(), old(self).current as int)),
            res is Ok ==> final(self).progressed(*old(self)),
        decreases old(self).scanner.tokens.len() - old(self).current, 1int,
    {
        let ghost before = *self;
        let ghost goal = call(self.tokens(), self.current as int);
        let mut expr = match self.primary() {
            Ok(e) => e,
            Err(e) => {
                return Err(e);
            },
        };
        while self.check(TokenType::LEFT_PAREN)
            invariant
                before == *old(self),
                self.at(before, self.current as int),
                self.progressed(before),
                goal == call(before.tokens(), before.current as int),
                calls(self.tokens(), self.current as int, expr@) == goal,
            decreases self.scanner.tokens.len() - self.current,
        {
            expr = match self.call_step(expr) {
                Ok(e) => e,
                Err(e) => {
                    return Err(e);
                },
            };
        }
        Ok(expr)
    }

    /// unary: `!` or `-` before a unary, or a call.
    pub fn unary(&mut self) -> (res: Result<Expression, LoxError>)
        ensures
            final(self).gave(*old(self), res, unary(old(self).tokens(), old(self).current as int)),
            res is Ok ==> final(self).progressed(*old(self)),
        decreases old(self).scanner.tokens.len() - old(self).current, 2int,
    {
        if self.check(TokenType::BANG) || self.check(TokenType::MINUS) {
            let operator = self.next();
            match self.unary() {
                Ok(right) => Ok(Expression::Unary { operator, right: Box::new(right) }),
                Err(e) => Err(e),
            }
        } else {
            self.call()
        }
    }

    /// An operand at a level of binary operators.
    fn operand(&mut self, level: u8) -> (res: Result<Expression, LoxError>)
        ensures
            final(self).gave(
                *old(self),
                res,
                operand(old(self).tokens(), old(self).current as int, level as nat),
            ),
            res is Ok ==> final(self).progressed(*old(self)),
        decreases old(self).scanner.tokens.len() - old(self).current, 3 + 2 * level,
    {
        if level == 0 {
            self.unary()
        } else {
            self.binary(level - 1)
        }
    }

    /// One operator of a level and its right operand, after the left operand
    /// `left`; an operator of the level stands next.
    fn operator_step(&mut self, level: u8, left: Expression) -> (res: Result<Expression, LoxError>)
        requires
            !at_end(old(self).tokens(), old(self).current as int),
            operator_of(level as nat, kind_at(old(self).tokens(), old(self).current as int)),
        ensures
            final(self).at(*old(self), final(self).current as int),
            match res {
                Ok(e) => final(self).progressed(*old(self)) && operators(
                    old(self).tokens(),
                    old(self).current as int,
                    level as nat,
                    left@,
                ) == operators(old(self).tokens(), final(self).current as int, level as nat, e@),
                Err(x) => {
                    let p = operators(
                        old(self).tokens(),
                        old(self).current as int,
                        level as nat,
                        left@,
                    );
                    p.result is Err && is_failure(x, p.result->Err_0) && p.next == final(
                        self).current
                },
            },
        decreases old(self).scanner.tokens.len() - old(self).current, 3 + 2 * level,
    {
        let operator = self.next();
        match self.operand(level) {
            Ok(right) => Ok(make_node(level, left, operator, right)),
            Err(e) => Err(e),
        }
    }

    /// A level of binary operators: an operand, and as long as an operator of
    /// the level follows, another operand.
    fn binary(&mut self, level: u8) -> (res: Result<Expression, LoxError>)
        ensures
            final(self).gave(
                *old(self),
                res,
                binary(old(self).tokens(), old(self).current as int, level as nat),
            ),
            res is Ok ==> final(self).progressed(*old(self)),
        decreases old(self).scanner.tokens.len() - old(self).current, 4 + 2 * level,
    {
        let ghost before = *self;
        let ghost goal = binary(self.tokens(), self.current as int, level as nat);
        let mut expr = match self.operand(level) {
            Ok(e) => e,
            Err(e) => {
                return Err(e);
            },
        };
        while !self.is_at_end() && is_operator(level, self.kind())
            invariant
                before == *old(self),
                self.at(before, self.current as int),
                self.progressed(before),
                goal == binary(before.tokens(), before.current as int, level as nat),
                operators(self.tokens(), self.current as int, level as nat, expr@) == goal,
            decreases self.scanner.tokens.len() - self.current,
        {
            expr = match self.operator_step(level, expr) {
                Ok(e) => e,
                Err(e) => {
                    return Err(e);
                },
            };
        }
        Ok(expr)
    }

    /// factor: unaries with `/`, `*` and `**` between.
    pub fn factor(&mut self) -> (res: Result<Expression, LoxError>)
        ensures
            final(self).gave(
                *old(self),
                res,
                binary(old(self).tokens(), old(self).current as int, 0),
            ),
    {
        self.binary(0)
    }

    /// term: factors with `-` and `+` between.
    pub fn term(&mut self) -> (res: Result<Expression, LoxError>)
        ensures
            final(self).gave(
                *old(self),
                res,
                binary(old(self).tokens(), old(self).current as int, 1),
            ),
    {
        self.binary(1)
    }

    /// comparison: terms with `>`, `>=`, `<` and `<=` between.
    pub fn comparison(&mut self) -> (res: Result<Expression, LoxError>)
        ensures
            final(self).gave(
                *old(self),
                res,
                binary(old(self).tokens(), old(self).current as int, 2),
            ),
    {
        self.binary(2)
    }

    /// equality: comparisons with `!=` and `==` between.
    pub fn equality(&mut self) -> (res: Result<Expression, LoxError>)
        ensures
            final(self).gave(
                *old(self),
                res,
                binary(old(self).tokens(), old(self).current as int, 3),
            ),
    {
        self.binary(3)
    }

    /// and: equalities with `and` between.
    pub fn and(&mut self) -> (res: Result<Expression, LoxError>)
        ensures
            final(self).gave(
                *old(self),
                res,
                binary(old(self).tokens(), old(self).current as int, 4),
            ),
    {
        self.binary(4)
    }

    /// or: `and` levels with `or` between.
    pub fn or(&mut self) -> (res: Result<Expression, LoxError>)
        ensures
            final(self).gave(
                *old(self),
                res,
                binary(old(self).tokens(), old(self).current as int, 5),
            ),
    {
        self.binary(5)
    }

    /// assignment: an `or` level, and after `=` the value assigned to it.
    fn assignment(&mut self) -> (res: Result<Expression, LoxError>)
        ensures
            final(self).gave(
                *old(self),
                res,
                assignment(old(self).tokens(), old(self).current as int),
            ),
            res is Ok ==> final(self).progressed(*old(self)),
        decreases old(self).scanner.tokens.len() - old(self).current, 20int,
    {
        let expr = match self.binary(5) {
            Ok(e) => e,
            Err(e) => {
                return Err(e);
            },
        };
        if self.consume_if(TokenType::EQUAL) {
            let value = match self.assignment() {
                Ok(v) => v,
                Err(e) => {
                    return Err(e);
                },
            };
            return match expr {
                Expression::Variable(name) => Ok(
                    Expression::Assign { name, value: Box::new(value) },
                ),
                _ => Err(failure("Invalid assignment target.")),
            };
        }
        Ok(expr)
    }

    /// expression: an assignment.
    fn expression(&mut self) -> (res: Result<Expression, LoxError>)
        ensures
            final(self).gave(
                *old(self),
                res,
                expression(old(self).tokens(), old(self).current as int),
            ),
            res is Ok ==> final(self).progressed(*old(self)),
        decreases old(self).scanner.tokens.len() - old(self).current, 21int,
    {
        self.assignment()
    }

    /// An expression where one may stand, or nothing where `absent` holds.
    fn optional(&mut self, absent: bool) -> (res: Result<Option<Expression>, LoxError>)
        ensures
            final(self).at(
                *old(self),
                optional(old(self).tokens(), old(self).current as int, absent).next,
            ),
            match res {
                Ok(e) => optional(old(self).tokens(), old(self).current as int, absent).result
                    == Ok::<Option<Expr>, Seq<char>>(crate::stmt::optional_view(e)),
                Err(x) => {
                    let p = optional(old(self).tokens(), old(self).current as int, absent);
                    p.result is Err && is_failure(x, p.result->Err_0)
                },
            },
        decreases old(self).scanner.tokens.len() - old(self).current, 22int,
    {
        if absent {
            Ok(None)
        } else {
            match self.expression() {
                Ok(e) => Ok(Some(e)),
                Err(e) => Err(e),
            }
        }
    }

    /// An expression and a semicolon.
    fn expression_statement(&mut self) -> (res: Result<Statement, LoxError>)
        ensures
            final(self).gave_statement(
                *old(self),
                res,
                expression_statement(old(self).tokens(), old(self).current as int),
            ),
        decreases old(self).scanner.tokens.len() - old(self).current, 23int,
    {
        let expr = match self.expression() {
            Ok(e) => e,
            Err(e) => {
                return Err(e);
            },
        };
        match self.expect_token(TokenType::SEMICOLON, "Expected ';' after expression.") {
            Ok(_) => Ok(Statement::Expression(expr)),
            Err(e) => Err(e),
        }
    }

    /// What follows `print`.
    fn print_statement(&mut self) -> (res: Result<Statement, LoxError>)
        ensures
            final(self).gave_statement(
                *old(self),
                res,
                print_statement(old(self).tokens(), old(self).current as int),
            ),
        decreases old(self).scanner.tokens.len() - old(self).current, 24int,
    {
        let expr = match self.expression() {
            Ok(e) => e,
            Err(e) => {
                return Err(e);
            },
        };
        match self.expect_token(TokenType::SEMICOLON, "Expected ';' after expression.") {
            Ok(_) => Ok(Statement::Print(expr)),
            Err(e) => Err(e),
        }
    }

    /// What follows `return`, which is the token `keyword`.
    fn return_statement(&mut self, keyword: Token) -> (res: Result<Statement, LoxError>)
        ensures
            final(self).at(
                *old(self),
                return_statement(old(self).tokens(), old(self).current as int, keyword@).next,
            ),
            match res {
                Ok(s) => return_statement(
                    old(self).tokens(),
                    old(self).current as int,
                    keyword@,
                ).result == Ok::<Stmt, Seq<char>>(s@) && final(self).progressed(*old(self)),
                Err(x) => {
                    let p = return_statement(
                        old(self).tokens(),
                        old(self).current as int,
                        keyword@,
                    );
                    p.result is Err && is_failure(x, p.result->Err_0)
                },
            },
        decreases old(self).scanner.tokens.len() - old(self).current, 24int,
    {
        let absent = self.check(TokenType::SEMICOLON);
        let value = match self.optional(absent) {
            Ok(v) => v,
            Err(e) => {
                return Err(e);
            },
        };
        match self.expect_token(TokenType::SEMICOLON, "Expect ';' after return value.") {
            Ok(_) => Ok(Statement::Return(keyword, value)),
            Err(e) => Err(e),
        }
    }

    /// What follows `var`.
    fn var_declaration(&mut self) -> (res: Result<Statement, LoxError>)
        ensures
            final(self).gave_statement(
                *old(self),
                res,
                var_declaration(old(self).tokens(), old(self).current as int),
            ),
        decreases old(self).scanner.tokens.len() - old(self).current, 24int,
    {
        let name = match self.expect_token(TokenType::IDENTIFIER, "Expected variable name") {
            Ok(t) => t,
            Err(e) => {
                return Err(e);
            },
        };
        let absent = !self.consume_if(TokenType::EQUAL);
        let initializer = match self.optional(absent) {
            Ok(i) => i,
            Err(e) => {
                return Err(e);
            },
        };
        match self.expect_token(TokenType::SEMICOLON, "Expected ';' after variale declaration.") {
            Ok(_) => Ok(Statement::Var(name, initializer)),
            Err(e) => Err(e),
        }
    }

    /// What follows `dump`.
    fn dump_statement(&mut self) -> (res: Result<Statement, LoxError>)
        ensures
            final(self).gave_statement(
                *old(self),
                res,
                dump_statement(old(self).tokens(), old(self).current as int),
            ),
    {
        match self.expect_token(TokenType::SEMICOLON, "Expected ; after dump statement.") {
            Ok(_) => Ok(Statement::Dump),
            Err(e) => Err(e),
        }
    }

    /// One statement of a block, added to `statements`; the block is not at its
    /// end.
    fn block_item(&mut self, statements: &mut Vec<Statement>) -> (res: Result<(), LoxError>)
        requires
            !check_at(old(self).tokens(), old(self).current as int, TokenType::RIGHT_BRACE),
            !at_end(old(self).tokens(), old(self).current as int),
        ensures
            final(self).at(*old(self), final(self).current as int),
            match res {
                Ok(_) => final(self).progressed(*old(self)) && block(
                    old(self).tokens(),
                    old(self).current as int,
                    stmt_views(old(statements)@),
                ) == block(
                    old(self).tokens(),
                    final(self).current as int,
                    stmt_views(final(statements)@),
                ),
                Err(x) => {
                    let p = block(
                        old(self).tokens(),
                        old(self).current as int,
                        stmt_views(old(statements)@),
                    );
                    p.result is Err && is_failure(x, p.result->Err_0) && p.next == final(
                        self).current
                },
            },
        decreases old(self).scanner.tokens.len() - old(self).current, 42int,
    {
        match self.declaration() {
            Ok(s) => {
                proof {
                    lemma_views_push(statements@, s);
                }
                statements.push(s);
                Ok(())
            },
            Err(e) => Err(e),
        }
    }

    /// A block: its statements and the closing brace; the opening brace has
    /// been taken.
    fn whole_block(&mut self) -> (res: Result<Vec<Statement>, LoxError>)
        ensures
            final(self).at(
                *old(self),
                block(old(self).tokens(), old(self).current as int, Seq::empty()).next,
            ),
            match res {
                Ok(items) => block(
                    old(self).tokens(),
                    old(self).current as int,
                    Seq::empty(),
                ).result == Ok::<Seq<Stmt>, Seq<char>>(stmt_views(items@)) && final(
                    self).progressed(*old(self)),
                Err(x) => {
                    let p = block(old(self).tokens(), old(self).current as int, Seq::empty());
                    p.result is Err && is_failure(x, p.result->Err_0)
                },
            },
        decreases old(self).scanner.tokens.len() - old(self).current, 43int,
    {
        let mut statements: Vec<Statement> = Vec::new();
        let ghost before = *self;
        let ghost goal = block(self.tokens(), self.current as int, Seq::empty());
        assert(stmt_views(statements@) =~= Seq::<Stmt>::empty());
        while !self.check(TokenType::RIGHT_BRACE) && !self.is_at_end()
            invariant
                before == *old(self),
                self.at(before, self.current as int),
                goal == block(before.tokens(), before.current as int, Seq::empty()),
                block(self.tokens(), self.current as int, stmt_views(statements@)) == goal,
            decreases self.scanner.tokens.len() - self.current,
        {
            match self.block_item(&mut statements) {
                Ok(_) => {},
                Err(e) => {
                    return Err(e);
                },
            }
        }
        match self.expect_token(TokenType::RIGHT_BRACE, "Expected '}' after block.") {
            Ok(_) => Ok(statements),
            Err(e) => Err(e),
        }
    }

    /// A condition in parentheses.
    fn condition(&mut self, before: &str, after: &str) -> (res: Result<Expression, LoxError>)
        ensures
            final(self).gave(
                *old(self),
                res,
                condition(old(self).tokens(), old(self).current as int, before@, after@),
            ),
            res is Ok ==> final(self).progressed(*old(self)),
        decreases old(self).scanner.tokens.len() - old(self).current, 22int,
    {
        match self.expect_token(TokenType::LEFT_PAREN, before) {
            Ok(_) => {},
            Err(e) => {
                return Err(e);
            },
        }
        let cond = match self.expression() {
            Ok(e) => e,
            Err(e) => {
                return Err(e);
            },
        };
        match self.expect_token(TokenType::RIGHT_PAREN, after) {
            Ok(_) => Ok(cond),
            Err(e) => Err(e),
        }
    }

    /// What follows `if`.
    fn if_statement(&mut self) -> (res: Result<Statement, LoxError>)
        ensures
            final(self).gave_statement(
                *old(self),
                res,
                if_statement(old(self).tokens(), old(self).current as int),
            ),
        decreases old(self).scanner.tokens.len() - old(self).current, 24int,
    {
        let cond = match self.condition(
            "Expect '(' after 'if'.",
            "Expect ')' after if condition.",
        ) {
            Ok(e) => e,
            Err(e) => {
                return Err(e);
            },
        };
        let then_branch = match self.statement() {
            Ok(s) => s,
            Err(e) => {
                return Err(e);
            },
        };
        if self.consume_if(TokenType::ELSE) {
            match self.statement() {
                Ok(s) => Ok(Statement::If(cond, Box::new(then_branch), Some(Box::new(s)))),
                Err(e) => Err(e),
            }
        } else {
            Ok(Statement::If(cond, Box::new(then_branch), None))
        }
    }

    /// What follows `while`.
    fn while_statement(&mut self) -> (res: Result<Statement, LoxError>)
        ensures
            final(self).gave_statement(
                *old(self),
                res,
                while_statement(old(self).tokens(), old(self).current as int),
            ),
        decreases old(self).scanner.tokens.len() - old(self).current, 24int,
    {
        let cond = match self.condition(
            "Expect '(' after 'while'.",
            "Expect ')' after condition.",
        ) {
            Ok(e) => e,
            Err(e) => {
                return Err(e);
            },
        };
        match self.statement() {
            Ok(body) => Ok(Statement::While(cond, Box::new(body))),
            Err(e) => Err(e),
        }
    }

    /// The first clause of a `for`.
    fn for_initializer(&mut self) -> (res: Result<Option<Statement>, LoxError>)
        ensures
            final(self).at(
                *old(self),
                for_initializer(old(self).tokens(), old(self).current as int).next,
            ),
            match res {
                Ok(s) => for_initializer(old(self).tokens(), old(self).current as int).result
                    == Ok::<Option<Stmt>, Seq<char>>(
                    match s {
                        Some(i) => Some(i@),
                        None => None,
                    },
                ) && final(self).progressed(*old(self)),
                Err(x) => {
                    let p = for_initializer(old(self).tokens(), old(self).current as int);
                    p.result is Err && is_failure(x, p.result->Err_0)
                },
            },
        decreases old(self).scanner.tokens.len() - old(self).current, 25int,
    {
        if self.consume_if(TokenType::SEMICOLON) {
            Ok(None)
        } else if self.consume_if(TokenType::VAR) {
            match self.var_declaration() {
                Ok(s) => Ok(Some(s)),
                Err(e) => Err(e),
            }
        } else {
            match self.expression_statement() {
                Ok(s) => Ok(Some(s)),
                Err(e) => Err(e),
            }
        }
    }

    /// What follows `for`.
    fn for_statement(&mut self) -> (res: Result<Statement, LoxError>)
        ensures
            final(self).gave_statement(
                *old(self),
                res,
                for_statement(old(self).tokens(), old(self).current as int),
            ),
        decreases old(self).scanner.tokens.len() - old(self).current, 26int,
    {
        match self.expect_token(TokenType::LEFT_PAREN, "Expect '(' after 'for'.") {
            Ok(_) => {},
            Err(e) => {
                return Err(e);
            },
        }
        let initializer = match self.for_initializer() {
            Ok(i) => i,
            Err(e) => {
                return Err(e);
            },
        };
        let no_condition = self.check(TokenType::SEMICOLON);
        let cond = match self.optional(no_condition) {
            Ok(c) => c,
            Err(e) => {
                return Err(e);
            },
        };
        match self.expect_token(TokenType::SEMICOLON, "Expect ';' after loop condition.") {
            Ok(_) => {},
            Err(e) => {
                return Err(e);
            },
        }
        let no_increment = self.check(TokenType::RIGHT_PAREN);
        let increment = match self.optional(no_increment) {
            Ok(n) => n,
            Err(e) => {
                return Err(e);
            },
        };
        match self.expect_token(TokenType::RIGHT_PAREN, "Expect ')' after for clauses.") {
            Ok(_) => {},
            Err(e) => {
                return Err(e);
            },
        }
        match self.statement() {
            Ok(body) => Ok(desugar(initializer, cond, increment, body)),
            Err(e) => Err(e),
        }
    }

    /// The names of the parameters, with commas between.
    fn parameters(&mut self) -> (res: Result<Vec<Token>, LoxError>)
        ensures
            final(self).at(
                *old(self),
                parameters(old(self).tokens(), old(self).current as int, Seq::empty()).next,
            ),
            match res {
                Ok(names) => parameters(
                    old(self).tokens(),
                    old(self).current as int,
                    Seq::empty(),
                ).result == Ok::<Seq<TokenView>, Seq<char>>(token_views(names@)),
                Err(x) => {
                    let p = parameters(old(self).tokens(), old(self).current as int, Seq::empty());
                    p.result is Err && is_failure(x, p.result->Err_0)
                },
            },
    {
        let ghost before = *self;
        let ghost goal = parameters(self.tokens(), self.current as int, Seq::empty());
        let mut names: Vec<Token> = Vec::new();
        assert(token_views(names@) =~= Seq::<TokenView>::empty());
        let mut more = true;
        while more
            invariant
                before == *old(self),
                self.at(before, self.current as int),
                goal == parameters(before.tokens(), before.current as int, Seq::empty()),
                goal == (if more {
                    parameters(self.tokens(), self.current as int, token_views(names@))
                } else {
                    done(token_views(names@), self.current as int)
                }),
            decreases self.scanner.tokens.len() - self.current + (if more {
                1int
            } else {
                0int
            }),
        {
            let name = match self.expect_token(TokenType::IDENTIFIER, "Expect parameter name.") {
                Ok(t) => t,
                Err(e) => {
                    return Err(e);
                },
            };
            proof {
                assert(token_views(names@.push(name)) =~= token_views(names@).push(name@));
            }
            names.push(name);
            more = self.consume_if(TokenType::COMMA);
        }
        Ok(names)
    }

    /// The name and the parameters of a function, up to the brace that opens
    /// its body.
    fn function_head(&mut self) -> (res: Result<(Token, Vec<Token>), LoxError>)
        ensures
            final(self).at(
                *old(self),
                function_head(old(self).tokens(), old(self).current as int).next,
            ),
            match res {
                Ok(h) => function_head(old(self).tokens(), old(self).current as int).result
                    == Ok::<(TokenView, Seq<TokenView>), Seq<char>>((h.0@, token_views(h.1@)))
                    && final(self).progressed(*old(self)),
                Err(x) => {
                    let p = function_head(old(self).tokens(), old(self).current as int);
                    p.result is Err && is_failure(x, p.result->Err_0)
                },
            },
    {
        let name = match self.expect_token(TokenType::IDENTIFIER, "Expect function name.") {
            Ok(t) => t,
            Err(e) => {
                return Err(e);
            },
        };
        match self.expect_token(TokenType::LEFT_PAREN, "Expect '(' after function name.") {
            Ok(_) => {},
            Err(e) => {
                return Err(e);
            },
        }
        let names = if self.check(TokenType::RIGHT_PAREN) {
            let empty: Vec<Token> = Vec::new();
            assert(token_views(empty@) =~= Seq::<TokenView>::empty());
            empty
        } else {
            match self.parameters() {
                Ok(v) => v,
                Err(e) => {
                    return Err(e);
                },
            }
        };
        match self.expect_token(TokenType::RIGHT_PAREN, "Expect ')' after parameters.") {
            Ok(_) => {},
            Err(e) => {
                return Err(e);
            },
        }
        match self.expect_token(TokenType::LEFT_BRACE, "Expect '{' before function body.") {
            Ok(_) => Ok((name, names)),
            Err(e) => Err(e),
        }
    }

    /// What follows `fun`.
    fn function(&mut self) -> (res: Result<Statement, LoxError>)
        ensures
            final(self).gave_statement(
                *old(self),
                res,
                function(old(self).tokens(), old(self).current as int),
            ),
        decreases old(self).scanner.tokens.len() - old(self).current, 44int,
    {
        let head = match self.function_head() {
            Ok(h) => h,
            Err(e) => {
                return Err(e);
            },
        };
        match self.whole_block() {
            Ok(body) => Ok(Statement::Function(head.0, head.1, body)),
            Err(e) => Err(e),
        }
    }

    /// statement: a print, a block, an `if`, a `while`, a `for`, a `return`, or
    /// an expression statement.
    fn statement(&mut self) -> (res: Result<Statement, LoxError>)
        ensures
            final(self).gave_statement(
                *old(self),
                res,
                statement(old(self).tokens(), old(self).current as int),
            ),
        decreases old(self).scanner.tokens.len() - old(self).current, 40int,
    {
        if self.consume_if(TokenType::PRINT) {
            return self.print_statement();
        }
        if self.consume_if(TokenType::LEFT_BRACE) {
            return match self.whole_block() {
                Ok(items) => Ok(Statement::Block(items)),
                Err(e) => Err(e),
            };
        }
        if self.consume_if(TokenType::IF) {
            return self.if_statement();
        }
        if self.consume_if(TokenType::WHILE) {
            return self.while_statement();
        }
        if self.consume_if(TokenType::FOR) {
            return self.for_statement();
        }
        if self.check(TokenType::RETURN) {
            let keyword = self.next();
            return self.return_statement(keyword);
        }
        self.expression_statement()
    }

    /// declaration: a function, a variable, a dump, or a statement.
    fn declaration(&mut self) -> (res: Result<Statement, LoxError>)
        ensures
            final(self).gave_statement(
                *old(self),
                res,
                declaration(old(self).tokens(), old(self).current as int),
            ),
        decreases old(self).scanner.tokens.len() - old(self).current, 41int,
    {
        if self.consume_if(TokenType::FUN) {
            return self.function();
        } else if self.consume_if(TokenType::VAR) {
            return self.var_declaration();
        } else if self.consume_if(TokenType::DUMP) {
            return self.dump_statement();
        }
        self.statement()
    }

    /// Whether `self` is `before` with one more report, `text`.
    pub open spec fn reported(self, before: Parser, text: Seq<char>) -> bool {
        &&& self.diagnostics@.len() == before.diagnostics@.len() + 1
        &&& self.diagnostics@.drop_last() == before.diagnostics@
        &&& self.diagnostics@.last()@ == text
    }

    /// Records the line of text `[line N] Error LOC: MSG`.
    pub fn report(&mut self, line: usize, loc: String, msg: String)
        ensures
            *final(self) == (Parser { diagnostics: final(self).diagnostics, ..*old(self) }),
            final(self).reported(*old(self), report_line(line as int, loc@, msg@)),
    {
        let a = joined(&owned("[line "), &natural_text(line as u64));
        let b = joined(&a, &owned("] Error "));
        let c = joined(&b, &loc);
        let d = joined(&c, &owned(": "));
        let text = joined(&d, &msg);
        let ghost before = self.diagnostics@;
        self.diagnostics.push(text);
        assert(self.diagnostics@.drop_last() =~= before);
    }

    /// Goes on to the next boundary between statements.
    fn synchronize(&mut self)
        ensures
            final(self).at(*old(self), synchronized(old(self).tokens(), old(self).current as int)),
            !at_end(old(self).tokens(), old(self).current as int) ==> final(self).progressed(
                *old(self),
            ),
    {
        if self.is_at_end() {
            return ;
        }
        let ghost before = *self;
        self.current += 1;
        while !self.is_at_end()
            invariant
                before == *old(self),
                !at_end(before.tokens(), before.current as int),
                self.at(before, self.current as int),
                before.current < self.current <= self.scanner.tokens@.len(),
                boundary(self.tokens(), self.current as int) == boundary(
                    before.tokens(),
                    before.current + 1,
                ),
            decreases self.scanner.tokens.len() - self.current,
        {
            if self.scanner.tokens[self.current - 1].token_type == TokenType::SEMICOLON {
                return ;
            }
            if begins(self.kind()) {
                return ;
            }
            self.current += 1;
        }
    }

    /// Reports a failure at `token`, and goes on to the next boundary between
    /// statements.
    pub fn err(&mut self, token: Token, msg: String)
        ensures
            *final(self) == (Parser {
                diagnostics: final(self).diagnostics,
                current: final(self).current,
                had_error: true,
                ..*old(self)
            }),
            final(self).reported(*old(self), token_report(token@, msg@)),
            final(self).current == synchronized(old(self).tokens(), old(self).current as int),
            old(self).current <= final(self).current,
            !at_end(old(self).tokens(), old(self).current as int) ==> final(self).progressed(
                *old(self),
            ),
    {
        self.had_error = true;
        if token.token_type == TokenType::EOF {
            self.report(token.line, owned("at end"), msg);
        } else {
            let a = joined(&owned("at '"), &token.lexeme);
            let loc = joined(&a, &owned("'"));
            self.report(token.line, loc, msg);
        }
        self.synchronize();
    }

    /// Whether `self` is what the parse `p`, made from the parser `before`,
    /// leads to: the tokens are used up, `items` are the statements of the
    /// parse, and its reports are the new reports.
    pub open spec fn parsed(self, before: Parser, items: Seq<Statement>, p: Parse) -> bool {
        &&& self == (Parser {
            current: self.current,
            had_error: self.had_error,
            diagnostics: self.diagnostics,
            ..before
        })
        &&& before.current <= self.current
        &&& at_end(self.tokens(), self.current as int)
        &&& stmt_views(items) == p.statements
        &&& extended_by(self.diagnostics@, before.diagnostics@, p.reports)
        &&& self.had_error == (before.had_error || p.reports.len() > 0)
    }

    /// Parses the tokens from where the parser stands to their end. What
    /// does not parse is reported, once for each failure, and left out.
    pub fn parse(&mut self) -> (res: Result<Vec<Statement>, LoxError>)
        ensures
            res is Ok,
            final(self).parsed(
                *old(self),
                res->Ok_0@,
                parse(
                    old(self).tokens(),
                    old(self).current as int,
                    old(self).line as int,
                    Parse { statements: Seq::empty(), reports: Seq::empty() },
                ),
            ),
    {
        let mut statements: Vec<Statement> = Vec::new();
        let ghost before = *self;
        let ghost mut done = Parse { statements: Seq::empty(), reports: Seq::empty() };
        let ghost goal = parse(self.tokens(), self.current as int, self.line as int, done);
        assert(stmt_views(statements@) =~= done.statements);
        proof {
            lemma_extended_by_nothing(self.diagnostics@);
        }
        while !self.is_at_end()
            invariant
                *self == (Parser {
                    current: self.current,
                    had_error: self.had_error,
                    diagnostics: self.diagnostics,
                    ..before
                }),
                before.current <= self.current,
                stmt_views(statements@) == done.statements,
                extended_by(self.diagnostics@, before.diagnostics@, done.reports),
                self.had_error == (before.had_error || done.reports.len() > 0),
                parse(self.tokens(), self.current as int, self.line as int, done) == goal,
            decreases self.scanner.tokens.len() - self.current,
        {
            let ghost here = *self;
            let grown = self.parse_next(&mut statements, Ghost(done));
            proof {
                if grown@.reports != done.reports {
                    lemma_extended_by_one(
                        self.diagnostics@,
                        here.diagnostics@,
                        before.diagnostics@,
                        done.reports,
                    );
                }
                done = grown@;
            }
        }
        proof {
            lemma_parse_ends(self.tokens(), self.current as int, self.line as int, done);
        }
        Ok(statements)
    }

    /// One round of [`Self::parse`]: a declaration, or the report of what did
    /// not parse and the way to the next boundary between statements.
    fn parse_next(&mut self, statements: &mut Vec<Statement>, done: Ghost<Parse>) -> (grown: Ghost<
        Parse,
    >)
        requires
            !at_end(old(self).tokens(), old(self).current as int),
            stmt_views(old(statements)@) == done@.statements,
        ensures
            *final(self) == (Parser {
                current: final(self).current,
                had_error: final(self).had_error,
                diagnostics: final(self).diagnostics,
                ..*old(self)
            }),
            final(self).progressed(*old(self)),
            stmt_views(final(statements)@) == grown@.statements,
            parse(old(self).tokens(), old(self).current as int, old(self).line as int, done@)
                == parse(
                old(self).tokens(),
                final(self).current as int,
                old(self).line as int,
                grown@,
            ),
            grown@.reports == done@.reports ==> final(self).diagnostics == old(self).diagnostics
                && final(self).had_error == old(self).had_error,
            grown@.reports != done@.reports ==> grown@.reports == done@.reports.push(
                final(self).diagnostics@.last()@,
            ) && final(self).reported(*old(self), final(self).diagnostics@.last()@) && final(
                self).had_error,
    {
        let ghost here = *self;
        proof {
            reveal(parse);
        }
        match self.declaration() {
            Ok(stmt) => {
                proof {
                    lemma_views_push(statements@, stmt);
                }
                statements.push(stmt);
                Ghost(Parse { statements: done@.statements.push(stmt@), reports: done@.reports })
            },
            Err(e) => {
                let ghost failed_at = *self;
                let token = self.peek();
                let text = e.to_text();
                self.err(token, text);
                let ghost line = failure_report(
                    here.tokens(),
                    failed_at.current as int,
                    here.line as int,
                    declaration(here.tokens(), here.current as int).result->Err_0,
                );
                assert(self.diagnostics@.last()@ == line);
                assert(done@.reports.push(line) != done@.reports) by {
                    assert(done@.reports.push(line).len() != done@.reports.len());
                }
                Ghost(Parse { statements: done@.statements, reports: done@.reports.push(line) })
            },
        }
    }

    /// Scans `source` and parses the tokens that come of it. The statements
    /// are returned, and kept with those of earlier calls.
    pub fn load<F: FloatUnit>(&mut self, source: String, fpu: &mut Floats<F>) -> (res: Result<
        Vec<Statement>,
        LoxError,
    >)
        requires
            old(self).scanner.source.len() + source@.len() + old(self).scanner.line <= usize::MAX,
        ensures
            res is Ok,
            final(self).scanner.source@ == old(self).scanner.source@ + source@,
            final(self).scanner.kept(old(self).scanner),
            final(fpu).follows(old(fpu)),
            forall|o: Oracle| #[trigger]
                final(fpu).told(old(fpu), o) ==> final(self).scanner.scanned(
                    old(self).scanner,
                    final(fpu).asked(),
                    crate::scanner::scan(
                        final(self).scanner.source@,
                        old(self).scanner.current as int,
                        crate::scanner::nothing_yet(
                            old(self).scanner.line as int,
                            old(self).scanner.start as int,
                            old(fpu).asked(),
                        ),
                        o,
                    ),
                ),
            final(self).parsed(
                Parser {
                    scanner: final(self).scanner,
                    statements: final(self).statements,
                    ..*old(self)
                },
                res->Ok_0@,
                parse(
                    final(self).tokens(),
                    old(self).current as int,
                    old(self).line as int,
                    Parse { statements: Seq::empty(), reports: Seq::empty() },
                ),
            ),
            stmt_views(final(self).statements@) == stmt_views(old(self).statements@) + stmt_views(
                res->Ok_0@,
            ),
    {
        self.scanner.load(chars_of(source.as_str()), fpu);
        let statements = match self.parse() {
            Ok(s) => s,
            Err(e) => {
                return Err(e);
            },
        };
        let mut copies = clone_statements(&statements);
        let ghost kept = self.statements@;
        let ghost added = copies@;
        self.statements.append(&mut copies);
        assert(stmt_views(self.statements@) =~= stmt_views(kept) + stmt_views(added));
        Ok(statements)
    }
}

/// The parse where a declaration parses: the declaration is one more
/// statement, and the parse goes on behind it.
pub proof fn lemma_parse_takes(ts: Seq<TokenView>, pos: int, end_line: int, so_far: Parse)
    requires
        !at_end(ts, pos),
        declaration(ts, pos).result is Ok,
        pos < declaration(ts, pos).next <= ts.len(),
    ensures
        parse(ts, pos, end_line, so_far) == parse(
            ts,
            declaration(ts, pos).next,
            end_line,
            Parse {
                statements: so_far.statements.push(declaration(ts, pos).result->Ok_0),
                reports: so_far.reports,
            },
        ),
{
    reveal(parse);
}

/// The parse where a declaration does not parse: the failure is one more
/// report, and the parse goes on at the next boundary between statements.
pub proof fn lemma_parse_recovers(ts: Seq<TokenView>, pos: int, end_line: int, so_far: Parse)
    requires
        !at_end(ts, pos),
        declaration(ts, pos).result is Err,
        pos < synchronized(ts, declaration(ts, pos).next) <= ts.len(),
    ensures
        parse(ts, pos, end_line, so_far) == parse(
            ts,
            synchronized(ts, declaration(ts, pos).next),
            end_line,
            Parse {
                statements: so_far.statements,
                reports: so_far.reports.push(
                    failure_report(
                        ts,
                        declaration(ts, pos).next,
                        end_line,
                        declaration(ts, pos).result->Err_0,
                    ),
                ),
            },
        ),
{
    reveal(parse);
}

/// The parse at the end of the tokens: what has been produced so far.
pub proof fn lemma_parse_ends(ts: Seq<TokenView>, pos: int, end_line: int, so_far: Parse)
    requires
        at_end(ts, pos),
    ensures
        parse(ts, pos, end_line, so_far) == so_far,
{
    reveal(parse);
}

/// A declaration that does not parse costs one report and nothing else: where
/// the declaration at `pos` fails with `message` at `failed_at`, and the one at
/// the next boundary between statements parses as `statement` and is the last,
/// the parse holds that one statement and the one report of the failure.
pub proof fn one_failure_is_one_report(
    ts: Seq<TokenView>,
    pos: int,
    end_line: int,
    message: Seq<char>,
    failed_at: int,
    statement: Stmt,
    end: int,
)
    requires
        !at_end(ts, pos),
        declaration(ts, pos) == failed::<Stmt>(message, failed_at),
        pos < synchronized(ts, failed_at) <= ts.len(),
        !at_end(ts, synchronized(ts, failed_at)),
        declaration(ts, synchronized(ts, failed_at)) == done(statement, end),
        synchronized(ts, failed_at) < end <= ts.len(),
        at_end(ts, end),
    ensures
        parse(ts, pos, end_line, Parse { statements: Seq::empty(), reports: Seq::empty() }) == (
        Parse {
            statements: Seq::empty().push(statement),
            reports: Seq::empty().push(failure_report(ts, failed_at, end_line, message)),
        }),
{
    let resume = synchronized(ts, failed_at);
    let none = Parse { statements: Seq::empty(), reports: Seq::empty() };
    let one = Parse {
        statements: Seq::empty(),
        reports: Seq::<Seq<char>>::empty().push(
            failure_report(ts, failed_at, end_line, message),
        ),
    };
    let two = Parse { statements: one.statements.push(statement), reports: one.reports };
    lemma_parse_recovers(ts, pos, end_line, none);
    lemma_parse_takes(ts, resume, end_line, one);
    lemma_parse_ends(ts, end, end_line, two);
}

} // verus!
