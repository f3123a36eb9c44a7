//! Statements.
use vstd::prelude::*;
use crate::ast::{clone_tokens, token_views, Expr, Expression, Token, TokenView};

verus! {

/// A statement of the language.
#[derive(Debug)]
pub enum Statement {
    Block(Vec<Statement>),
    If(Expression, Box<Statement>, Option<Box<Statement>>),
    While(Expression, Box<Statement>),
    Function(Token, Vec<Token>, Vec<Statement>),
    Return(Token, Option<Expression>),
    Expression(Expression),
    Print(Expression),
    Dump,
    Var(Token, Option<Expression>),
}

/// A [`Statement`] with its text as sequences of characters.
pub enum Stmt {
    Block(Seq<Stmt>),
    If(Expr, Box<Stmt>, Option<Box<Stmt>>),
    While(Expr, Box<Stmt>),
    Function(TokenView, Seq<TokenView>, Seq<Stmt>),
    Return(TokenView, Option<Expr>),
    Expression(Expr),
    Print(Expr),
    Dump,
    Var(TokenView, Option<Expr>),
}

/// The view of an optional expression.
pub open spec fn optional_view(e: Option<Expression>) -> Option<Expr> {
    match e {
        Some(x) => Some(x@),
        None => None,
    }
}

/// The view of a statement.
pub open spec fn stmt_view(s: Statement) -> Stmt
    decreases s,
{
    match s {
        Statement::Block(items) => Stmt::Block(stmt_views(items@)),
        Statement::If(cond, then_branch, else_branch) => Stmt::If(
            cond@,
            Box::new(stmt_view(*then_branch)),
            match else_branch {
                Some(b) => Some(Box::new(stmt_view(*b))),
                None => None,
            },
        ),
        Statement::While(cond, body) => Stmt::While(cond@, Box::new(stmt_view(*body))),
        Statement::Function(name, params, body) => Stmt::Function(
            name@,
            token_views(params@),
            stmt_views(body@),
        ),
        Statement::Return(keyword, value) => Stmt::Return(keyword@, optional_view(value)),
        Statement::Expression(e) => Stmt::Expression(e@),
        Statement::Print(e) => Stmt::Print(e@),
        Statement::Dump => Stmt::Dump,
        Statement::Var(name, init) => Stmt::Var(name@, optional_view(init)),
    }
}

/// The views of a sequence of statements.
pub open spec fn stmt_views(items: Seq<Statement>) -> Seq<Stmt>
    decreases items,
{
    Seq::new(
        items.len(),
        |i: int|
            if 0 <= i < items.len() {
                stmt_view(items[i])
            } else {
                Stmt::Dump
            },
    )
}

impl View for Statement {
    type V = Stmt;

    open spec fn view(&self) -> Stmt {
        stmt_view(*self)
    }
}

/// Copies an optional expression.
pub fn clone_optional(e: &Option<Expression>) -> (r: Option<Expression>)
    ensures
        optional_view(r) == optional_view(*e),
{
    match e {
        Some(x) => Some(x.clone()),
        None => None,
    }
}

/// Copies a vector of statements.
pub fn clone_statements(items: &Vec<Statement>) -> (r: Vec<Statement>)
    ensures
        stmt_views(r@) == stmt_views(items@),
    decreases items,
{
    let mut r: Vec<Statement> = Vec::new();
    let mut i: usize = 0;
    while i < items.len()
        invariant
            i <= items.len(),
            r.len() == i,
            forall|j: int| 0 <= j < i ==> r[j]@ == items[j]@,
        decreases items.len() - i,
    {
        r.push(items[i].clone());
        i += 1;
    }
    assert(stmt_views(r@) =~= stmt_views(items@));
    r
}

impl Clone for Statement {
    fn clone(&self) -> (r: Self)
        ensures
            r@ == self@,
        decreases self,
    {
        match self {
            Statement::Block(items) => Statement::Block(clone_statements(items)),
            Statement::If(cond, then_branch, else_branch) => Statement::If(
                cond.clone(),
                Box::new((**then_branch).clone()),
                match else_branch {
                    Some(b) => Some(Box::new((**b).clone())),
                    None => None,
                },
            ),
            Statement::While(cond, body) => Statement::While(
                cond.clone(),
                Box::new((**body).clone()),
            ),
            Statement::Function(name, params, body) => Statement::Function(
                name.clone(),
                clone_tokens(params),
                clone_statements(body),
            ),
            Statement::Return(keyword, value) => Statement::Return(
                keyword.clone(),
                clone_optional(value),
            ),
            Statement::Expression(e) => Statement::Expression(e.clone()),
            Statement::Print(e) => Statement::Print(e.clone()),
            Statement::Dump => Statement::Dump,
            Statement::Var(name, init) => Statement::Var(name.clone(), clone_optional(init)),
        }
    }
}

} // verus!
