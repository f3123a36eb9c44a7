//! The interpreter: what the statements and expressions of the language do.
//!
//! The meaning of the language is written down as functions on a [`State`]:
//! [`eval`] for expressions, [`exec`] for statements, [`run`] for a program.
//! Each takes a bound on the depth of calls and the rounds of a loop, which
//! makes it total, and an oracle that stands for the float unit.
//! [`Interpreter`] is proved to do exactly what these functions say, under
//! every oracle that answers as the float unit did while it ran.
use vstd::prelude::*;
use crate::ast::{apply_binary, apply_unary, binary, clone_tokens, is_binary_operator};
use crate::ast::{token_views, unary, Computed, Expr, Expression, LoxError, LoxErrorView};
use crate::ast::{Token, TokenLiteral, TokenType, TokenView, Value};
use crate::environment::{assigned, defined, lookup, Environment, Scope};
use crate::floats::{after, lemma_told_in_parts, FloatUnit, Floats, Oracle, Told};
use crate::stmt::{clone_statements, stmt_views, Statement, Stmt};
use crate::text::{digits_of, joined, natural_text, owned, texts};

verus! {

/// A function as it was declared: its name, the names of its parameters, and
/// its body.
#[derive(Debug)]
pub struct Function {
    pub name: Token,
    pub params: Vec<Token>,
    pub body: Vec<Statement>,
}

/// A [`Function`] with its text as sequences of characters.
pub struct FunctionView {
    pub name: TokenView,
    pub params: Seq<TokenView>,
    pub body: Seq<Stmt>,
}

impl View for Function {
    type V = FunctionView;

    open spec fn view(&self) -> FunctionView {
        FunctionView {
            name: self.name@,
            params: token_views(self.params@),
            body: stmt_views(self.body@),
        }
    }
}

impl Clone for Function {
    fn clone(&self) -> (r: Self)
        ensures
            r@ == self@,
    {
        Function {
            name: self.name.clone(),
            params: clone_tokens(&self.params),
            body: clone_statements(&self.body),
        }
    }
}

/// The functions that have been declared, by name.
pub type Table = Map<Seq<char>, FunctionView>;

/// What the interpreter holds: the stack of scopes, the table of functions,
/// the lines printed so far, and the notes made so far (one for each failure
/// of a statement of the program, and one for each dump).
pub struct State {
    pub scopes: Seq<Scope>,
    pub functions: Table,
    pub output: Seq<Seq<char>>,
    pub notes: Seq<Seq<char>>,
}

/// How a statement ends: the next statement follows, or a `return` is on its
/// way to the call it belongs to.
pub enum Flow {
    Next,
    Return(Value),
}

/// What running a piece of program comes to: its result or failure, the state
/// it leaves, and how often the float unit has been consulted by then.
pub struct Ran<T> {
    pub outcome: Result<T, LoxErrorView>,
    pub state: State,
    pub asked: int,
}

/// The result `value` in the state `state`.
pub open spec fn fine<T>(value: T, state: State, asked: int) -> Ran<T> {
    Ran { outcome: Ok(value), state, asked }
}

/// The failure `error` in the state `state`.
pub open spec fn fails<T>(error: LoxErrorView, state: State, asked: int) -> Ran<T> {
    Ran { outcome: Err(error), state, asked }
}

/// The failure of a run, as the failure of a run of another kind.
pub open spec fn passed_on<T, U>(r: Ran<T>) -> Ran<U> {
    Ran {
        outcome: match r.outcome {
            Err(e) => Err(e),
            Ok(_) => Err(LoxErrorView::RuntimeException),
        },
        state: r.state,
        asked: r.asked,
    }
}

/// The result of an operator as the result of an evaluation: a failure of the
/// operator is a parse error of the interpreter.
pub open spec fn lifted(r: Told<Computed>, state: State) -> Ran<Value> {
    match r.value {
        Ok(v) => fine(v, state, r.asked),
        Err(e) => fails(LoxErrorView::ParseError(e), state, r.asked),
    }
}

/// The state with other scopes.
pub open spec fn with_scopes(state: State, scopes: Seq<Scope>) -> State {
    State { scopes, ..state }
}

/// The state after a scope is entered.
pub open spec fn entered(state: State) -> State {
    with_scopes(state, state.scopes.push(Scope::empty()))
}

/// The state after the innermost scope is left; the global scope is never
/// left.
pub open spec fn left(state: State) -> State {
    if state.scopes.len() > 1 {
        with_scopes(state, state.scopes.drop_last())
    } else {
        state
    }
}

/// The scopes after the parameters from `from` on are bound, each to the
/// argument at its place, in the innermost scope. Arguments without a
/// parameter are dropped, parameters without an argument stay unbound.
pub open spec fn bound(
    scopes: Seq<Scope>,
    params: Seq<TokenView>,
    arguments: Seq<Value>,
    from: int,
) -> Seq<Scope>
    decreases params.len() - from,
{
    if 0 <= from < params.len() && from < arguments.len() {
        bound(defined(scopes, params[from].lexeme, arguments[from]), params, arguments, from + 1)
    } else {
        scopes
    }
}

/// The note that a dump makes.
pub open spec fn dump_note(state: State) -> Seq<char> {
    "dump: scope depth "@ + digits_of(state.scopes.len())
}

/// The value of an expression, and the state it leaves. `at` is how often the
/// float unit has been consulted before.
///
/// A literal is its value; a name is the value that the innermost scope that
/// knows it binds it to, or the literal of its token where none does; an
/// assignment assigns and is the value assigned.
pub open spec fn eval(state: State, e: Expr, fuel: nat, o: Oracle, at: int) -> Ran<Value>
    decreases fuel, 0int, e, 1int,
{
    match e {
        Expr::Literal(v) => fine(v, state, at),
        Expr::Empty => fine(Value::Empty, state, at),
        Expr::Grouping(inner) => eval(state, *inner, fuel, o, at),
        Expr::Variable(token) => match lookup(state.scopes, token.lexeme) {
            Some(v) => fine(v, state, at),
            None => fine(token.literal, state, at),
        },
        Expr::Assign { name, value } => {
            let r = eval(state, *value, fuel, o, at);
            match r.outcome {
                Ok(v) => fine(
                    v,
                    with_scopes(r.state, assigned(r.state.scopes, name.lexeme, v)),
                    r.asked,
                ),
                Err(_) => r,
            }
        },
        Expr::Unary { .. } => eval_unary(state, e, fuel, o, at),
        Expr::Binary { .. } => eval_binary(state, e, fuel, o, at),
        Expr::Logical { .. } => eval_logical(state, e, fuel, o, at),
        Expr::Call { .. } => eval_call(state, e, fuel, o, at),
    }
}

/// A unary operator on the value of its operand. A token that is neither `-`
/// nor `!` is a runtime failure.
pub open spec fn eval_unary(state: State, e: Expr, fuel: nat, o: Oracle, at: int) -> Ran<Value>
    decreases fuel, 0int, e, 0int,
{
    match e {
        Expr::Unary { operator, right } => {
            let r = eval(state, *right, fuel, o, at);
            match r.outcome {
                Ok(v) => if operator.token_type == TokenType::MINUS || operator.token_type
                    == TokenType::BANG {
                    lifted(after(r.asked, unary(operator.token_type, v)), r.state)
                } else {
                    fails(LoxErrorView::RuntimeException, r.state, r.asked)
                },
                Err(_) => r,
            }
        },
        _ => fine(Value::Empty, state, at),
    }
}

/// A binary operator on the values of its operands, the left one evaluated
/// first. A token that is no binary operator is a runtime failure.
pub open spec fn eval_binary(state: State, e: Expr, fuel: nat, o: Oracle, at: int) -> Ran<Value>
    decreases fuel, 0int, e, 0int,
{
    match e {
        Expr::Binary { left, operator, right } => {
            let l = eval(state, *left, fuel, o, at);
            match l.outcome {
                Ok(a) => {
                    let r = eval(l.state, *right, fuel, o, l.asked);
                    match r.outcome {
                        Ok(b) => if is_binary_operator(operator.token_type) {
                            lifted(binary(operator.token_type, a, b, o, r.asked), r.state)
                        } else {
                            fails(LoxErrorView::RuntimeException, r.state, r.asked)
                        },
                        Err(_) => r,
                    }
                },
                Err(_) => l,
            }
        },
        _ => fine(Value::Empty, state, at),
    }
}

/// `or` is its left operand where that is true, `and` where that is false;
/// else the right operand, which is evaluated only then.
pub open spec fn eval_logical(state: State, e: Expr, fuel: nat, o: Oracle, at: int) -> Ran<Value>
    decreases fuel, 0int, e, 0int,
{
    match e {
        Expr::Logical { left, operator, right } => {
            let l = eval(state, *left, fuel, o, at);
            match l.outcome {
                Ok(a) => if (operator.token_type == TokenType::OR) == a.truthy() {
                    l
                } else {
                    eval(l.state, *right, fuel, o, l.asked)
                },
                Err(_) => l,
            }
        },
        _ => fine(Value::Empty, state, at),
    }
}

/// The values of the arguments from `from` on, after those in `so_far`, from
/// left to right.
pub open spec fn eval_arguments(
    state: State,
    arguments: Seq<Expr>,
    from: int,
    so_far: Seq<Value>,
    fuel: nat,
    o: Oracle,
    at: int,
) -> Ran<Seq<Value>>
    decreases fuel, 0int, arguments, arguments.len() - from,
{
    if 0 <= from < arguments.len() {
        let r = eval(state, arguments[from], fuel, o, at);
        match r.outcome {
            Ok(v) => eval_arguments(r.state, arguments, from + 1, so_far.push(v), fuel, o, r.asked),
            Err(_) => passed_on(r),
        }
    } else {
        fine(so_far, state, at)
    }
}

/// What the body of a function came to, as the value of the call: the value
/// of the `return` that ended it, or Empty; and the scope of the call is left.
pub open spec fn returned(body: Ran<Flow>) -> Ran<Value> {
    match body.outcome {
        Ok(Flow::Return(v)) => fine(v, left(body.state), body.asked),
        Ok(Flow::Next) => fine(Value::Empty, left(body.state), body.asked),
        Err(error) => fails(error, left(body.state), body.asked),
    }
}

/// A call. The callee has to be the name of a declared function. The
/// arguments are evaluated in the scope of the caller; the body runs in a
/// scope of its own above it, in which the parameters are bound, and the scope
/// is left however the body ends. A call nested deeper than the bound allows
/// is a runtime failure.
pub open spec fn eval_call(state: State, e: Expr, fuel: nat, o: Oracle, at: int) -> Ran<Value>
    decreases fuel, 0int, e, 0int,
{
    match e {
        Expr::Call { callee, paren, arguments } => match *callee {
            Expr::Variable(name) => if state.functions.contains_key(name.lexeme) {
                let f = state.functions[name.lexeme];
                let args = eval_arguments(state, arguments, 0, Seq::empty(), fuel, o, at);
                match args.outcome {
                    Ok(values) => if fuel == 0 {
                        fails(LoxErrorView::RuntimeException, args.state, args.asked)
                    } else {
                        let inside = entered(args.state);
                        returned(
                            exec_all(
                                with_scopes(inside, bound(inside.scopes, f.params, values, 0)),
                                f.body,
                                0,
                                (fuel - 1) as nat,
                                o,
                                args.asked,
                            ),
                        )
                    },
                    Err(_) => passed_on(args),
                }
            } else {
                fails(LoxErrorView::RuntimeException, state, at)
            },
            _ => fails(LoxErrorView::RuntimeException, state, at),
        },
        _ => fine(Value::Empty, state, at),
    }
}

/// The value of an expression that may be missing: Empty where it is.
pub open spec fn eval_optional(
    state: State,
    e: Option<Expr>,
    fuel: nat,
    o: Oracle,
    at: int,
) -> Ran<Value>
    decreases fuel, 1int, e, 0int,
{
    match e {
        Some(x) => eval(state, x, fuel, o, at),
        None => fine(Value::Empty, state, at),
    }
}

/// What a statement does.
pub open spec fn exec(state: State, s: Stmt, fuel: nat, o: Oracle, at: int) -> Ran<Flow>
    decreases fuel, 2int, s, 1int,
{
    match s {
        Stmt::Expression(e) => {
            let r = eval(state, e, fuel, o, at);
            match r.outcome {
                Ok(_) => fine(Flow::Next, r.state, r.asked),
                Err(_) => passed_on(r),
            }
        },
        Stmt::Print(e) => {
            let r = eval(state, e, fuel, o, at);
            match r.outcome {
                Ok(v) => {
                    let line = v.text(o, r.asked);
                    fine(
                        Flow::Next,
                        State { output: r.state.output.push(line.value), ..r.state },
                        line.asked,
                    )
                },
                Err(_) => passed_on(r),
            }
        },
        Stmt::Var(name, initializer) => {
            let r = eval_optional(state, initializer, fuel, o, at);
            match r.outcome {
                Ok(v) => fine(
                    Flow::Next,
                    with_scopes(r.state, defined(r.state.scopes, name.lexeme, v)),
                    r.asked,
                ),
                Err(_) => passed_on(r),
            }
        },
        Stmt::Return(_, value) => {
            let r = eval_optional(state, value, fuel, o, at);
            match r.outcome {
                Ok(v) => fine(Flow::Return(v), r.state, r.asked),
                Err(_) => passed_on(r),
            }
        },
        Stmt::Function(name, params, body) => fine(
            Flow::Next,
            State {
                functions: state.functions.insert(
                    name.lexeme,
                    FunctionView { name, params, body },
                ),
                ..state
            },
            at,
        ),
        Stmt::Dump => fine(
            Flow::Next,
            State { notes: state.notes.push(dump_note(state)), ..state },
            at,
        ),
        Stmt::Block(items) => {
            let r = exec_all(entered(state), items, 0, fuel, o, at);
            Ran { outcome: r.outcome, state: left(r.state), asked: r.asked }
        },
        Stmt::If(..) => exec_if(state, s, fuel, o, at),
        Stmt::While(..) => exec_while(state, s, fuel, o, at),
    }
}

/// The statements from `from` on, in order, up to the first that fails or
/// returns.
pub open spec fn exec_all(
    state: State,
    items: Seq<Stmt>,
    from: int,
    fuel: nat,
    o: Oracle,
    at: int,
) -> Ran<Flow>
    decreases fuel, 2int, items, items.len() - from,
{
    if 0 <= from < items.len() {
        let r = exec(state, items[from], fuel, o, at);
        match r.outcome {
            Ok(Flow::Next) => exec_all(r.state, items, from + 1, fuel, o, r.asked),
            _ => r,
        }
    } else {
        fine(Flow::Next, state, at)
    }
}

/// `if`: the first branch where the condition is true, else the second, if
/// there is one.
pub open spec fn exec_if(state: State, s: Stmt, fuel: nat, o: Oracle, at: int) -> Ran<Flow>
    decreases fuel, 2int, s, 0int,
{
    match s {
        Stmt::If(cond, then_branch, else_branch) => {
            let c = eval(state, cond, fuel, o, at);
            match c.outcome {
                Ok(v) => if v.truthy() {
                    exec(c.state, *then_branch, fuel, o, c.asked)
                } else {
                    match else_branch {
                        Some(b) => exec(c.state, *b, fuel, o, c.asked),
                        None => fine(Flow::Next, c.state, c.asked),
                    }
                },
                Err(_) => passed_on(c),
            }
        },
        _ => fine(Flow::Next, state, at),
    }
}

/// `while`: the body as long as the condition is true and the body neither
/// fails nor returns. More rounds than the bound allows are a runtime failure.
pub open spec fn exec_while(state: State, s: Stmt, fuel: nat, o: Oracle, at: int) -> Ran<Flow>
    decreases fuel, 2int, s, 0int,
{
    match s {
        Stmt::While(cond, body) => {
            let c = eval(state, cond, fuel, o, at);
            match c.outcome {
                Ok(v) => if v.truthy() {
                    let r = exec(c.state, *body, fuel, o, c.asked);
                    match r.outcome {
                        Ok(Flow::Next) => if fuel == 0 {
                            fails(LoxErrorView::RuntimeException, r.state, r.asked)
                        } else {
                            exec_while(r.state, s, (fuel - 1) as nat, o, r.asked)
                        },
                        _ => r,
                    }
                } else {
                    fine(Flow::Next, c.state, c.asked)
                },
                Err(_) => passed_on(c),
            }
        },
        _ => fine(Flow::Next, state, at),
    }
}

/// A program: its statements in order. A statement that fails leaves a note
/// with the text of its failure, and the next statement follows all the same;
/// a `return` outside a function ends its statement and nothing else.
pub open spec fn run(
    state: State,
    items: Seq<Stmt>,
    from: int,
    fuel: nat,
    o: Oracle,
    at: int,
) -> Told<State>
    decreases items.len() - from,
{
    if 0 <= from < items.len() {
        let r = exec(state, items[from], fuel, o, at);
        match r.outcome {
            Ok(_) => run(r.state, items, from + 1, fuel, o, r.asked),
            Err(e) => run(
                State { notes: r.state.notes.push(e.text()), ..r.state },
                items,
                from + 1,
                fuel,
                o,
                r.asked,
            ),
        }
    } else {
        after(at, state)
    }
}

/// The table that the first `n` declarations make; a later declaration of a
/// name replaces an earlier one.
pub open spec fn table_of(functions: Seq<Function>, n: int) -> Table
    decreases n,
{
    if n <= 0 {
        Map::empty()
    } else {
        table_of(functions, n - 1).insert(functions[n - 1].name.lexeme@, functions[n - 1]@)
    }
}

proof fn lemma_table_of_more(functions: Seq<Function>, more: Seq<Function>, n: int)
    requires
        n <= functions.len(),
        n <= more.len(),
        forall|j: int| 0 <= j < n ==> functions[j] == more[j],
    ensures
        table_of(functions, n) == table_of(more, n),
    decreases n,
{
    if n > 0 {
        lemma_table_of_more(functions, more, n - 1);
    }
}

/// The views of a sequence of values.
pub open spec fn value_views(values: Seq<TokenLiteral>) -> Seq<Value> {
    Seq::new(values.len(), |i: int| values[i]@)
}

/// What an evaluation returned, as the contracts speak of it.
pub open spec fn value_outcome(res: Result<TokenLiteral, LoxError>) -> Result<Value, LoxErrorView> {
    match res {
        Ok(v) => Ok(v@),
        Err(e) => Err(e@),
    }
}

/// What an execution returned, as the contracts speak of it: no value for the
/// next statement, the value of a `return` on its way.
pub open spec fn flow_outcome(res: Result<Option<TokenLiteral>, LoxError>) -> Result<
    Flow,
    LoxErrorView,
> {
    match res {
        Ok(None) => Ok(Flow::Next),
        Ok(Some(v)) => Ok(Flow::Return(v@)),
        Err(e) => Err(e@),
    }
}

/// The interpreter: the stack of scopes, the functions declared so far, what
/// the program has printed, and the notes of what went wrong.
///
/// Nothing is written anywhere: the caller takes the output and the notes and
/// does with them what it likes. Calls may be nested, and a loop may go round,
/// as often as the bound of the interpreter allows, which for a new
/// interpreter is the largest number there is; beyond it they are runtime
/// failures.
#[derive(Debug)]
pub struct Interpreter {
    envs: Environment,
    functions: Vec<Function>,
    output: Vec<String>,
    notes: Vec<String>,
    limit: u64,
}

impl View for Interpreter {
    type V = State;

    closed spec fn view(&self) -> State {
        State {
            scopes: self.envs@,
            functions: table_of(self.functions@, self.functions@.len() as int),
            output: texts(self.output@),
            notes: texts(self.notes@),
        }
    }
}

impl Default for Interpreter {
    fn default() -> (r: Self)
        ensures
            r.wf(),
            r.bound() == u64::MAX,
            r@ == (State {
                scopes: seq![Scope::empty()],
                functions: Map::empty(),
                output: Seq::empty(),
                notes: Seq::empty(),
            }),
    {
        Interpreter::new()
    }
}

impl Interpreter {
    /// The scope stack is well formed: the global scope is there.
    pub closed spec fn wf(&self) -> bool {
        self.envs.wf()
    }

    /// The bound on the depth of calls and on the rounds of a loop.
    pub closed spec fn bound(&self) -> nat {
        self.limit as nat
    }

    /// Whether the interpreter holds the state that a run has left,
    /// `outcome` is how the run ended, and the float unit has been consulted
    /// `asked` times, as often as the run says.
    pub open spec fn gave<T>(
        self,
        outcome: Result<T, LoxErrorView>,
        asked: int,
        r: Ran<T>,
    ) -> bool {
        outcome == r.outcome && self@ == r.state && asked == r.asked
    }

    /// Whether `self` comes of `before` by a run that leaves the stack of
    /// scopes as deep as it was, and the bound as it was.
    pub open spec fn keeps(self, before: Interpreter) -> bool {
        &&& self.wf()
        &&& self@.scopes.len() == before@.scopes.len()
        &&& self.bound() == before.bound()
    }

    /// An interpreter with an empty global scope, no functions, nothing
    /// printed, and the widest bound.
    pub fn new() -> (r: Interpreter)
        ensures
            r.wf(),
            r.bound() == u64::MAX,
            r@ == (State {
                scopes: seq![Scope::empty()],
                functions: Map::empty(),
                output: Seq::empty(),
                notes: Seq::empty(),
            }),
    {
        let r = Interpreter {
            envs: Environment::new(),
            functions: Vec::new(),
            output: Vec::new(),
            notes: Vec::new(),
            limit: u64::MAX,
        };
        assert(texts(r.output@) =~= Seq::<Seq<char>>::empty());
        assert(texts(r.notes@) =~= Seq::<Seq<char>>::empty());
        r
    }

    /// Sets the bound on the depth of calls and on the rounds of a loop.
    pub fn set_limit(&mut self, limit: u64)
        ensures
            final(self).bound() == limit,
            final(self)@ == old(self)@,
            final(self).wf() == old(self).wf(),
    {
        self.limit = limit;
    }

    /// The lines printed so far.
    pub fn output(&self) -> (r: &Vec<String>)
        ensures
            texts(r@) == self@.output,
    {
        &self.output
    }

    /// The notes made so far: one for each statement of a program that
    /// failed, and one for each dump.
    pub fn notes(&self) -> (r: &Vec<String>)
        ensures
            texts(r@) == self@.notes,
    {
        &self.notes
    }

    /// Hands over the lines printed so far, and forgets them.
    pub fn take_output(&mut self) -> (r: Vec<String>)
        ensures
            texts(r@) == old(self)@.output,
            final(self)@ == (State { output: Seq::empty(), ..old(self)@ }),
            final(self).wf() == old(self).wf(),
            final(self).bound() == old(self).bound(),
    {
        let mut taken: Vec<String> = Vec::new();
        std::mem::swap(&mut taken, &mut self.output);
        assert(texts(self.output@) =~= Seq::<Seq<char>>::empty());
        taken
    }

    /// Hands over the notes made so far, and forgets them.
    pub fn take_notes(&mut self) -> (r: Vec<String>)
        ensures
            texts(r@) == old(self)@.notes,
            final(self)@ == (State { notes: Seq::empty(), ..old(self)@ }),
            final(self).wf() == old(self).wf(),
            final(self).bound() == old(self).bound(),
    {
        let mut taken: Vec<String> = Vec::new();
        std::mem::swap(&mut taken, &mut self.notes);
        assert(texts(self.notes@) =~= Seq::<Seq<char>>::empty());
        taken
    }

    fn define(&mut self, name: &String, value: TokenLiteral)
        requires
            old(self).wf(),
        ensures
            final(self).keeps(*old(self)),
            final(self)@ == with_scopes(old(self)@, defined(old(self)@.scopes, name@, value@)),
    {
        proof {
            self.envs.lemma_has_global();
        }
        self.envs.define(name, value);
    }

    fn assign(&mut self, name: &String, value: TokenLiteral)
        requires
            old(self).wf(),
        ensures
            final(self).keeps(*old(self)),
            final(self)@ == with_scopes(old(self)@, assigned(old(self)@.scopes, name@, value@)),
    {
        proof {
            self.envs.lemma_has_global();
        }
        self.envs.assign(name, value);
    }

    fn get(&self, name: &String) -> (r: Option<TokenLiteral>)
        requires
            self.wf(),
        ensures
            match r {
                Some(v) => lookup(self@.scopes, name@) == Some(v@),
                None => lookup(self@.scopes, name@) is None,
            },
    {
        self.envs.get(name)
    }

    /// The value of the variable `name` in the innermost scope that knows it.
    pub fn get_var(&self, name: &str) -> (r: Option<TokenLiteral>)
        requires
            self.wf(),
        ensures
            match r {
                Some(v) => lookup(self@.scopes, name@) == Some(v@),
                None => lookup(self@.scopes, name@) is None,
            },
    {
        self.get(&owned(name))
    }

    /// The function declared under `name`, if there is one.
    fn function(&self, name: &String) -> (r: Option<Function>)
        ensures
            match r {
                Some(f) => self@.functions.contains_key(name@) && self@.functions[name@] == f@,
                None => !self@.functions.contains_key(name@),
            },
    {
        let mut i: usize = self.functions.len();
        while i > 0
            invariant
                i <= self.functions@.len(),
                table_of(self.functions@, self.functions@.len() as int).contains_key(name@)
                    == table_of(self.functions@, i as int).contains_key(name@),
                table_of(self.functions@, i as int).contains_key(name@) ==> table_of(
                    self.functions@,
                    self.functions@.len() as int,
                )[name@] == table_of(self.functions@, i as int)[name@],
            decreases i,
        {
            i -= 1;
            if self.functions[i].name.lexeme == *name {
                return Some(self.functions[i].clone());
            }
        }
        None
    }

    /// Enters a scope.
    fn enter(&mut self)
        requires
            old(self).wf(),
        ensures
            final(self).wf(),
            final(self).bound() == old(self).bound(),
            final(self)@ == entered(old(self)@),
            final(self)@.scopes.len() == old(self)@.scopes.len() + 1,
            old(self)@.scopes.len() >= 1,
    {
        proof {
            self.envs.lemma_has_global();
        }
        self.envs.push_frame();
    }

    /// Leaves the innermost scope.
    fn leave(&mut self)
        requires
            old(self).wf(),
        ensures
            final(self).wf(),
            final(self).bound() == old(self).bound(),
            final(self)@ == left(old(self)@),
            old(self)@.scopes.len() > 1 ==> final(self)@.scopes.len() == old(self)@.scopes.len()
                - 1,
    {
        self.envs.pop_frame();
    }

    /// Binds the parameters to the arguments in the innermost scope.
    fn bind(&mut self, params: &Vec<Token>, arguments: &Vec<TokenLiteral>)
        requires
            old(self).wf(),
        ensures
            final(self).keeps(*old(self)),
            final(self)@ == with_scopes(
                old(self)@,
                bound(old(self)@.scopes, token_views(params@), value_views(arguments@), 0),
            ),
    {
        let mut i: usize = 0;
        while i < params.len() && i < arguments.len()
            invariant
                self.keeps(*old(self)),
                self@ == with_scopes(old(self)@, self@.scopes),
                bound(self@.scopes, token_views(params@), value_views(arguments@), i as int)
                    == bound(old(self)@.scopes, token_views(params@), value_views(arguments@), 0),
            decreases params.len() - i,
        {
            self.define(&params[i].lexeme, arguments[i].clone());
            i += 1;
        }
    }

    /// Evaluates an expression, within the bound of the interpreter.
    pub fn evaluate<F: FloatUnit>(
        &mut self,
        expr: &Expression,
        fpu: &mut Floats<F>,
    ) -> (res: Result<TokenLiteral, LoxError>)
        requires
            old(self).wf(),
        ensures
            final(self).keeps(*old(self)),
            final(fpu).follows(old(fpu)),
            forall|o: Oracle| #[trigger]
                final(fpu).told(old(fpu), o) ==> final(self).gave(
                    value_outcome(res),
                    final(fpu).asked(),
                    eval(old(self)@, expr@, old(self).bound(), o, old(fpu).asked()),
                ),
    {
        let fuel = self.limit;
        let res = self.value_of(expr, fuel, fpu);
        proof {
            fpu.lemma_follows(old(fpu));
        }
        res
    }

    /// Runs a program: its statements in order. A statement that fails leaves
    /// a note, and the next one follows.
    pub fn interpret<F: FloatUnit>(&mut self, statements: Vec<Statement>, fpu: &mut Floats<F>)
        requires
            old(self).wf(),
        ensures
            final(self).keeps(*old(self)),
            final(fpu).follows(old(fpu)),
            forall|o: Oracle| #[trigger]
                final(fpu).told(old(fpu), o) ==> after(final(fpu).asked(), final(self)@) == run(
                    old(self)@,
                    stmt_views(statements@),
                    0,
                    old(self).bound(),
                    o,
                    old(fpu).asked(),
                ),
    {
        let ghost asked = *fpu;
        let mut i: usize = 0;
        while i < statements.len()
            invariant
                i <= statements.len(),
                self.keeps(*old(self)),
                fpu.extends(&asked),
                asked == *old(fpu),
                forall|o: Oracle| #[trigger]
                    fpu.told(&asked, o) ==> run(
                        self@,
                        stmt_views(statements@),
                        i as int,
                        self.bound(),
                        o,
                        fpu.asked(),
                    ) == run(
                        old(self)@,
                        stmt_views(statements@),
                        0,
                        old(self).bound(),
                        o,
                        asked.asked(),
                    ),
            decreases statements.len() - i,
        {
            let fuel = self.limit;
            let ghost here = *self;
            let ghost before = *fpu;
            let res = self.execute(&statements[i], fuel, fpu);
            let ghost reached = self@;
            match res {
                Ok(_) => {},
                Err(e) => {
                    self.notes.push(e.to_text());
                    assert(self@.notes =~= reached.notes.push(e@.text()));
                    assert(self@ == (State { notes: reached.notes.push(e@.text()), ..reached }));
                },
            }
            assert forall|o: Oracle| #[trigger] fpu.told(&asked, o) implies run(
                self@,
                stmt_views(statements@),
                i + 1,
                self.bound(),
                o,
                fpu.asked(),
            ) == run(
                old(self)@,
                stmt_views(statements@),
                0,
                old(self).bound(),
                o,
                asked.asked(),
            ) by {
                lemma_told_in_parts(&asked, &before, fpu, o);
                assert(here.bound() == old(self).bound());
                let r = exec(
                    here@,
                    stmt_views(statements@)[i as int],
                    fuel as nat,
                    o,
                    before.asked(),
                );
                assert(flow_outcome(res) == r.outcome && reached == r.state && fpu.asked()
                    == r.asked);
            }
            i += 1;
        }
        proof {
            fpu.lemma_follows(old(fpu));
        }
    }

    /// The value of an expression, within `fuel`.
    fn value_of<F: FloatUnit>(
        &mut self,
        expr: &Expression,
        fuel: u64,
        fpu: &mut Floats<F>,
    ) -> (res: Result<TokenLiteral, LoxError>)
        requires
            old(self).wf(),
        ensures
            final(self).keeps(*old(self)),
            final(fpu).extends(old(fpu)),
            forall|o: Oracle| #[trigger]
                final(fpu).told(old(fpu), o) ==> final(self).gave(
                    value_outcome(res),
                    final(fpu).asked(),
                    eval(old(self)@, expr@, fuel as nat, o, old(fpu).asked()),
                ),
        decreases fuel, 0int, expr, 1int,
    {
        match expr {
            Expression::Literal(lit) => Ok(lit.clone()),
            Expression::Empty => Ok(TokenLiteral::Empty),
            Expression::Grouping(e) => self.value_of(e, fuel, fpu),
            Expression::Variable(tok) => match self.get(&tok.lexeme) {
                Some(val) => Ok(val),
                None => Ok(tok.literal.clone()),
            },
            Expression::Assign { name, value } => {
                let val = match self.value_of(value, fuel, fpu) {
                    Ok(v) => v,
                    Err(e) => {
                        return Err(e);
                    },
                };
                self.assign(&name.lexeme, val.clone());
                Ok(val)
            },
            Expression::Unary { .. } => self.unary_of(expr, fuel, fpu),
            Expression::Binary { .. } => self.binary_of(expr, fuel, fpu),
            Expression::Logical { .. } => self.logical_of(expr, fuel, fpu),
            Expression::Call { .. } => self.call_of(expr, fuel, fpu),
        }
    }

    /// A unary operator on the value of its operand.
    fn unary_of<F: FloatUnit>(
        &mut self,
        expr: &Expression,
        fuel: u64,
        fpu: &mut Floats<F>,
    ) -> (res: Result<TokenLiteral, LoxError>)
        requires
            old(self).wf(),
        ensures
            final(self).keeps(*old(self)),
            final(fpu).extends(old(fpu)),
            forall|o: Oracle| #[trigger]
                final(fpu).told(old(fpu), o) ==> final(self).gave(
                    value_outcome(res),
                    final(fpu).asked(),
                    eval_unary(old(self)@, expr@, fuel as nat, o, old(fpu).asked()),
                ),
        decreases fuel, 0int, expr, 0int,
    {
        match expr {
            Expression::Unary { operator, right } => {
                let val = match self.value_of(right, fuel, fpu) {
                    Ok(v) => v,
                    Err(e) => {
                        return Err(e);
                    },
                };
                if operator.token_type == TokenType::MINUS || operator.token_type
                    == TokenType::BANG {
                    match apply_unary(operator.token_type, &val) {
                        Ok(v) => Ok(v),
                        Err(e) => Err(LoxError::ParseError(e)),
                    }
                } else {
                    Err(LoxError::RuntimeException)
                }
            },
            _ => Ok(TokenLiteral::Empty),
        }
    }

    /// A binary operator on the values of its operands.
    fn binary_of<F: FloatUnit>(
        &mut self,
        expr: &Expression,
        fuel: u64,
        fpu: &mut Floats<F>,
    ) -> (res: Result<TokenLiteral, LoxError>)
        requires
            old(self).wf(),
        ensures
            final(self).keeps(*old(self)),
            final(fpu).extends(old(fpu)),
            forall|o: Oracle| #[trigger]
                final(fpu).told(old(fpu), o) ==> final(self).gave(
                    value_outcome(res),
                    final(fpu).asked(),
                    eval_binary(old(self)@, expr@, fuel as nat, o, old(fpu).asked()),
                ),
        decreases fuel, 0int, expr, 0int,
    {
        let ghost asked = *fpu;
        match expr {
            Expression::Binary { left, operator, right } => {
                let left_val = match self.value_of(left, fuel, fpu) {
                    Ok(v) => v,
                    Err(e) => {
                        return Err(e);
                    },
                };
                let ghost after_left = *fpu;
                let right_res = self.value_of(right, fuel, fpu);
                let ghost after_right = *fpu;
                let right_val = match right_res {
                    Ok(v) => v,
                    Err(e) => {
                        assert forall|o: Oracle| #[trigger] fpu.told(&asked, o) implies self.gave(
                    value_outcome(Err(e)),
                    fpu.asked(),
                    eval_binary(old(self)@, expr@, fuel as nat, o, asked.asked()),
                ) by {
                            lemma_told_in_parts(&asked, &after_left, fpu, o);
                        }
                        return Err(e);
                    },
                };
                let res = if is_operator(operator.token_type) {
                    match apply_binary(operator.token_type, &left_val, &right_val, fpu) {
                        Ok(v) => Ok(v),
                        Err(e) => Err(LoxError::ParseError(e)),
                    }
                } else {
                    Err(LoxError::RuntimeException)
                };
                assert forall|o: Oracle| #[trigger] fpu.told(&asked, o) implies self.gave(
                    value_outcome(res),
                    fpu.asked(),
                    eval_binary(old(self)@, expr@, fuel as nat, o, asked.asked()),
                ) by {
                    lemma_told_in_parts(&asked, &after_right, fpu, o);
                    lemma_told_in_parts(&asked, &after_left, &after_right, o);
                }
                res
            },
            _ => Ok(TokenLiteral::Empty),
        }
    }

    /// `and` and `or`.
    fn logical_of<F: FloatUnit>(
        &mut self,
        expr: &Expression,
        fuel: u64,
        fpu: &mut Floats<F>,
    ) -> (res: Result<TokenLiteral, LoxError>)
        requires
            old(self).wf(),
        ensures
            final(self).keeps(*old(self)),
            final(fpu).extends(old(fpu)),
            forall|o: Oracle| #[trigger]
                final(fpu).told(old(fpu), o) ==> final(self).gave(
                    value_outcome(res),
                    final(fpu).asked(),
                    eval_logical(old(self)@, expr@, fuel as nat, o, old(fpu).asked()),
                ),
        decreases fuel, 0int, expr, 0int,
    {
        let ghost asked = *fpu;
        match expr {
            Expression::Logical { left, operator, right } => {
                let left_val = match self.value_of(left, fuel, fpu) {
                    Ok(v) => v,
                    Err(e) => {
                        return Err(e);
                    },
                };
                if (operator.token_type == TokenType::OR) == left_val.is_truthy() {
                    return Ok(left_val);
                }
                let ghost after_left = *fpu;
                let res = self.value_of(right, fuel, fpu);
                assert forall|o: Oracle| #[trigger] fpu.told(&asked, o) implies self.gave(
                    value_outcome(res),
                    fpu.asked(),
                    eval_logical(old(self)@, expr@, fuel as nat, o, asked.asked()),
                ) by {
                    lemma_told_in_parts(&asked, &after_left, fpu, o);
                }
                res
            },
            _ => Ok(TokenLiteral::Empty),
        }
    }

    /// The values of the arguments, from left to right.
    fn arguments_of<F: FloatUnit>(
        &mut self,
        arguments: &Vec<Expression>,
        fuel: u64,
        fpu: &mut Floats<F>,
    ) -> (res: Result<Vec<TokenLiteral>, LoxError>)
        requires
            old(self).wf(),
        ensures
            final(self).keeps(*old(self)),
            final(fpu).extends(old(fpu)),
            forall|o: Oracle| #[trigger]
                final(fpu).told(old(fpu), o) ==> final(self).gave(
                    match res {
                        Ok(values) => Ok::<Seq<Value>, LoxErrorView>(value_views(values@)),
                        Err(e) => Err::<Seq<Value>, LoxErrorView>(e@),
                    },
                    final(fpu).asked(),
                    eval_arguments(
                        old(self)@,
                        crate::ast::expr_views(arguments@),
                        0,
                        Seq::empty(),
                        fuel as nat,
                        o,
                        old(fpu).asked(),
                    ),
                ),
        decreases fuel, 0int, arguments, 0int,
    {
        let ghost asked = *fpu;
        let mut values: Vec<TokenLiteral> = Vec::new();
        assert(value_views(values@) =~= Seq::<Value>::empty());
        let mut i: usize = 0;
        while i < arguments.len()
            invariant
                i <= arguments.len(),
                self.keeps(*old(self)),
                fpu.extends(&asked),
                asked == *old(fpu),
                forall|o: Oracle| #[trigger]
                    fpu.told(&asked, o) ==> eval_arguments(
                        self@,
                        crate::ast::expr_views(arguments@),
                        i as int,
                        value_views(values@),
                        fuel as nat,
                        o,
                        fpu.asked(),
                    ) == eval_arguments(
                        old(self)@,
                        crate::ast::expr_views(arguments@),
                        0,
                        Seq::empty(),
                        fuel as nat,
                        o,
                        asked.asked(),
                    ),
            decreases arguments.len() - i,
        {
            let ghost here = *self;
            let ghost before = *fpu;
            let ghost collected = value_views(values@);
            let res = self.value_of(&arguments[i], fuel, fpu);
            let val = match res {
                Ok(v) => v,
                Err(e) => {
                    assert forall|o: Oracle| #[trigger] fpu.told(&asked, o) implies self.gave(
                    Err::<Seq<Value>, LoxErrorView>(e@),
                    fpu.asked(),
                    eval_arguments(
                        old(self)@,
                        crate::ast::expr_views(arguments@),
                        0,
                        Seq::empty(),
                        fuel as nat,
                        o,
                        asked.asked(),
                    ),
                ) by {
                        lemma_told_in_parts(&asked, &before, fpu, o);
                    }
                    return Err(e);
                },
            };
            proof {
                assert(value_views(values@.push(val)) =~= value_views(values@).push(val@));
            }
            values.push(val);
            assert forall|o: Oracle| #[trigger] fpu.told(&asked, o) implies eval_arguments(
                self@,
                crate::ast::expr_views(arguments@),
                i + 1,
                value_views(values@),
                fuel as nat,
                o,
                fpu.asked(),
            ) == eval_arguments(
                old(self)@,
                crate::ast::expr_views(arguments@),
                0,
                Seq::empty(),
                fuel as nat,
                o,
                asked.asked(),
            ) by {
                lemma_told_in_parts(&asked, &before, fpu, o);
                assert(eval_arguments(
                    here@,
                    crate::ast::expr_views(arguments@),
                    i as int,
                    collected,
                    fuel as nat,
                    o,
                    before.asked(),
                ) == eval_arguments(
                    self@,
                    crate::ast::expr_views(arguments@),
                    i + 1,
                    collected.push(val@),
                    fuel as nat,
                    o,
                    fpu.asked(),
                ));
            }
            i += 1;
        }
        Ok(values)
    }

    /// A call.
    fn call_of<F: FloatUnit>(
        &mut self,
        expr: &Expression,
        fuel: u64,
        fpu: &mut Floats<F>,
    ) -> (res: Result<TokenLiteral, LoxError>)
        requires
            old(self).wf(),
        ensures
            final(self).keeps(*old(self)),
            final(fpu).extends(old(fpu)),
            forall|o: Oracle| #[trigger]
                final(fpu).told(old(fpu), o) ==> final(self).gave(
                    value_outcome(res),
                    final(fpu).asked(),
                    eval_call(old(self)@, expr@, fuel as nat, o, old(fpu).asked()),
                ),
        decreases fuel, 0int, expr, 0int,
    {
        let ghost asked = *fpu;
        match expr {
            Expression::Call { callee, paren, arguments } => match &**callee {
                Expression::Variable(name) => match self.function(&name.lexeme) {
                    Some(func) => {
                        assert((**callee)@ == Expr::Variable(name@));
                        let values = match self.arguments_of(arguments, fuel, fpu) {
                            Ok(v) => v,
                            Err(e) => {
                                return Err(e);
                            },
                        };
                        if fuel == 0 {
                            return Err(LoxError::RuntimeException);
                        }
                        let ghost after_arguments = *fpu;
                        self.enter();
                        self.bind(&func.params, &values);
                        let body = self.execute_all(&func.body, 0, fuel - 1, fpu);
                        self.leave();
                        let res = match body {
                            Ok(Some(v)) => Ok(v),
                            Ok(None) => Ok(TokenLiteral::Empty),
                            Err(e) => Err(e),
                        };
                        assert forall|o: Oracle| #[trigger] fpu.told(&asked, o) implies self.gave(
                    value_outcome(res),
                    fpu.asked(),
                    eval_call(old(self)@, expr@, fuel as nat, o, asked.asked()),
                ) by {
                            lemma_told_in_parts(&asked, &after_arguments, fpu, o);
                        }
                        res
                    },
                    None => {
                        assert((**callee)@ == Expr::Variable(name@));
                        Err(LoxError::RuntimeException)
                    },
                },
                _ => {
                    assert(!((**callee)@ is Variable));
                    Err(LoxError::RuntimeException)
                },
            },
            _ => Ok(TokenLiteral::Empty),
        }
    }

    /// The value of an expression that may be missing.
    fn optional_value_of<F: FloatUnit>(
        &mut self,
        expr: &Option<Expression>,
        fuel: u64,
        fpu: &mut Floats<F>,
    ) -> (res: Result<TokenLiteral, LoxError>)
        requires
            old(self).wf(),
        ensures
            final(self).keeps(*old(self)),
            final(fpu).extends(old(fpu)),
            forall|o: Oracle| #[trigger]
                final(fpu).told(old(fpu), o) ==> final(self).gave(
                    value_outcome(res),
                    final(fpu).asked(),
                    eval_optional(
                        old(self)@,
                        crate::stmt::optional_view(*expr),
                        fuel as nat,
                        o,
                        old(fpu).asked(),
                    ),
                ),
        decreases fuel, 1int, expr, 0int,
    {
        match expr {
            Some(e) => self.value_of(e, fuel, fpu),
            None => Ok(TokenLiteral::Empty),
        }
    }

    /// Executes a statement, within `fuel`. The result is the value of a
    /// `return` that is on its way, if one is.
    fn execute<F: FloatUnit>(
        &mut self,
        statement: &Statement,
        fuel: u64,
        fpu: &mut Floats<F>,
    ) -> (res: Result<Option<TokenLiteral>, LoxError>)
        requires
            old(self).wf(),
        ensures
            final(self).keeps(*old(self)),
            final(fpu).extends(old(fpu)),
            forall|o: Oracle| #[trigger]
                final(fpu).told(old(fpu), o) ==> final(self).gave(
                    flow_outcome(res),
                    final(fpu).asked(),
                    exec(old(self)@, statement@, fuel as nat, o, old(fpu).asked()),
                ),
        decreases fuel, 2int, statement, 1int,
    {
        match statement {
            Statement::Expression(..) => self.execute_expression(statement, fuel, fpu),
            Statement::Print(..) => self.execute_print(statement, fuel, fpu),
            Statement::Var(..) => self.execute_var(statement, fuel, fpu),
            Statement::Return(..) => self.execute_return(statement, fuel, fpu),
            Statement::Function(..) => self.execute_function(statement),
            Statement::Dump => self.execute_dump(statement),
            Statement::Block(..) => self.execute_block(statement, fuel, fpu),
            Statement::If(..) => self.execute_if(statement, fuel, fpu),
            Statement::While(..) => self.execute_while(statement, fuel, fpu),
        }
    }

    /// An expression statement.
    fn execute_expression<F: FloatUnit>(
        &mut self,
        statement: &Statement,
        fuel: u64,
        fpu: &mut Floats<F>,
    ) -> (res: Result<Option<TokenLiteral>, LoxError>)
        requires
            old(self).wf(),
            statement is Expression,
        ensures
            final(self).keeps(*old(self)),
            final(fpu).extends(old(fpu)),
            forall|o: Oracle| #[trigger]
                final(fpu).told(old(fpu), o) ==> final(self).gave(
                    flow_outcome(res),
                    final(fpu).asked(),
                    exec(old(self)@, statement@, fuel as nat, o, old(fpu).asked()),
                ),
        decreases fuel, 2int, statement, 0int,
    {
        match statement {
            Statement::Expression(ex) => match self.value_of(ex, fuel, fpu) {
                Ok(_) => Ok(None),
                Err(e) => Err(e),
            },
            _ => Ok(None),
        }
    }

    /// `print`: the text of the value is one more line of output.
    fn execute_print<F: FloatUnit>(
        &mut self,
        statement: &Statement,
        fuel: u64,
        fpu: &mut Floats<F>,
    ) -> (res: Result<Option<TokenLiteral>, LoxError>)
        requires
            old(self).wf(),
            statement is Print,
        ensures
            final(self).keeps(*old(self)),
            final(fpu).extends(old(fpu)),
            forall|o: Oracle| #[trigger]
                final(fpu).told(old(fpu), o) ==> final(self).gave(
                    flow_outcome(res),
                    final(fpu).asked(),
                    exec(old(self)@, statement@, fuel as nat, o, old(fpu).asked()),
                ),
        decreases fuel, 2int, statement, 0int,
    {
        let ghost asked = *fpu;
        match statement {
            Statement::Print(ex) => {
                let val = match self.value_of(ex, fuel, fpu) {
                    Ok(v) => v,
                    Err(e) => {
                        return Err(e);
                    },
                };
                let ghost evaluated = *fpu;
                let line = val.to_text(fpu);
                let ghost reached = self@;
                self.output.push(line);
                assert(self@.output =~= reached.output.push(line@));
                assert forall|o: Oracle| #[trigger] fpu.told(&asked, o) implies self.gave(
                    flow_outcome(Ok(None)),
                    fpu.asked(),
                    exec(old(self)@, statement@, fuel as nat, o, asked.asked()),
                ) by {
                    lemma_told_in_parts(&asked, &evaluated, fpu, o);
                }
                Ok(None)
            },
            _ => Ok(None),
        }
    }

    /// `var`: the name is bound in the innermost scope.
    fn execute_var<F: FloatUnit>(
        &mut self,
        statement: &Statement,
        fuel: u64,
        fpu: &mut Floats<F>,
    ) -> (res: Result<Option<TokenLiteral>, LoxError>)
        requires
            old(self).wf(),
            statement is Var,
        ensures
            final(self).keeps(*old(self)),
            final(fpu).extends(old(fpu)),
            forall|o: Oracle| #[trigger]
                final(fpu).told(old(fpu), o) ==> final(self).gave(
                    flow_outcome(res),
                    final(fpu).asked(),
                    exec(old(self)@, statement@, fuel as nat, o, old(fpu).asked()),
                ),
        decreases fuel, 2int, statement, 0int,
    {
        match statement {
            Statement::Var(name, initializer) => {
                let val = match self.optional_value_of(initializer, fuel, fpu) {
                    Ok(v) => v,
                    Err(e) => {
                        return Err(e);
                    },
                };
                self.define(&name.lexeme, val);
                Ok(None)
            },
            _ => Ok(None),
        }
    }

    /// `return`.
    fn execute_return<F: FloatUnit>(
        &mut self,
        statement: &Statement,
        fuel: u64,
        fpu: &mut Floats<F>,
    ) -> (res: Result<Option<TokenLiteral>, LoxError>)
        requires
            old(self).wf(),
            statement is Return,
        ensures
            final(self).keeps(*old(self)),
            final(fpu).extends(old(fpu)),
            forall|o: Oracle| #[trigger]
                final(fpu).told(old(fpu), o) ==> final(self).gave(
                    flow_outcome(res),
                    final(fpu).asked(),
                    exec(old(self)@, statement@, fuel as nat, o, old(fpu).asked()),
                ),
        decreases fuel, 2int, statement, 0int,
    {
        match statement {
            Statement::Return(_, value) => match self.optional_value_of(value, fuel, fpu) {
                Ok(v) => Ok(Some(v)),
                Err(e) => Err(e),
            },
            _ => Ok(None),
        }
    }

    /// A function declaration: the function is entered in the table.
    fn execute_function(&mut self, statement: &Statement) -> (res: Result<
        Option<TokenLiteral>,
        LoxError,
    >)
        requires
            old(self).wf(),
            statement is Function,
        ensures
            final(self).keeps(*old(self)),
            forall|fuel: nat, o: Oracle, at: int|
                final(self).gave(
                    flow_outcome(res),
                    at,
                    #[trigger] exec(old(self)@, statement@, fuel, o, at),
                ),
    {
        match statement {
            Statement::Function(name, params, body) => {
                let f = Function {
                    name: name.clone(),
                    params: clone_tokens(params),
                    body: clone_statements(body),
                };
                let ghost before = self.functions@;
                self.functions.push(f);
                proof {
                    lemma_table_of_more(before, self.functions@, before.len() as int);
                }
                Ok(None)
            },
            _ => Ok(None),
        }
    }

    /// `dump`: a note of the depth of the scope stack.
    fn execute_dump(&mut self, statement: &Statement) -> (res: Result<
        Option<TokenLiteral>,
        LoxError,
    >)
        requires
            old(self).wf(),
            statement is Dump,
        ensures
            final(self).keeps(*old(self)),
            forall|fuel: nat, o: Oracle, at: int|
                final(self).gave(
                    flow_outcome(res),
                    at,
                    #[trigger] exec(old(self)@, statement@, fuel, o, at),
                ),
    {
        match statement {
            Statement::Dump => {
                let depth = self.envs.depth();
                let note = joined(&owned("dump: scope depth "), &natural_text(depth as u64));
                let ghost reached = self@;
                self.notes.push(note);
                assert(self@.notes =~= reached.notes.push(dump_note(reached)));
                Ok(None)
            },
            _ => Ok(None),
        }
    }

    /// A block: its statements in a scope of their own.
    fn execute_block<F: FloatUnit>(
        &mut self,
        statement: &Statement,
        fuel: u64,
        fpu: &mut Floats<F>,
    ) -> (res: Result<Option<TokenLiteral>, LoxError>)
        requires
            old(self).wf(),
            statement is Block,
        ensures
            final(self).keeps(*old(self)),
            final(fpu).extends(old(fpu)),
            forall|o: Oracle| #[trigger]
                final(fpu).told(old(fpu), o) ==> final(self).gave(
                    flow_outcome(res),
                    final(fpu).asked(),
                    exec(old(self)@, statement@, fuel as nat, o, old(fpu).asked()),
                ),
        decreases fuel, 2int, statement, 0int,
    {
        match statement {
            Statement::Block(items) => {
                self.enter();
                let r = self.execute_all(items, 0, fuel, fpu);
                self.leave();
                r
            },
            _ => Ok(None),
        }
    }

    /// The statements from `from` on, up to the first that fails or returns.
    fn execute_all<F: FloatUnit>(
        &mut self,
        items: &Vec<Statement>,
        from: usize,
        fuel: u64,
        fpu: &mut Floats<F>,
    ) -> (res: Result<Option<TokenLiteral>, LoxError>)
        requires
            old(self).wf(),
        ensures
            final(self).keeps(*old(self)),
            final(fpu).extends(old(fpu)),
            forall|o: Oracle| #[trigger]
                final(fpu).told(old(fpu), o) ==> final(self).gave(
                    flow_outcome(res),
                    final(fpu).asked(),
                    exec_all(
                        old(self)@,
                        stmt_views(items@),
                        from as int,
                        fuel as nat,
                        o,
                        old(fpu).asked(),
                    ),
                ),
        decreases fuel, 2int, items, items.len() - from,
    {
        let ghost asked = *fpu;
        let mut i: usize = from;
        while i < items.len()
            invariant
                from <= i,
                self.keeps(*old(self)),
                fpu.extends(&asked),
                asked == *old(fpu),
                forall|o: Oracle| #[trigger]
                    fpu.told(&asked, o) ==> exec_all(
                        self@,
                        stmt_views(items@),
                        i as int,
                        fuel as nat,
                        o,
                        fpu.asked(),
                    ) == exec_all(
                        old(self)@,
                        stmt_views(items@),
                        from as int,
                        fuel as nat,
                        o,
                        asked.asked(),
                    ),
            decreases items.len() - i,
        {
            let ghost here = *self;
            let ghost before = *fpu;
            let res = self.execute(&items[i], fuel, fpu);
            assert forall|o: Oracle| #[trigger] fpu.told(&asked, o) implies self.gave(
                flow_outcome(res),
                fpu.asked(),
                exec(here@, stmt_views(items@)[i as int], fuel as nat, o, before.asked()),
            ) && exec_all(
                here@,
                stmt_views(items@),
                i as int,
                fuel as nat,
                o,
                before.asked(),
            ) == exec_all(
                old(self)@,
                stmt_views(items@),
                from as int,
                fuel as nat,
                o,
                asked.asked(),
            ) by {
                lemma_told_in_parts(&asked, &before, fpu, o);
            }
            match res {
                Ok(None) => {},
                Ok(Some(v)) => {
                    return Ok(Some(v));
                },
                Err(e) => {
                    return Err(e);
                },
            }
            i += 1;
        }
        Ok(None)
    }

    /// `if`.
    fn execute_if<F: FloatUnit>(
        &mut self,
        statement: &Statement,
        fuel: u64,
        fpu: &mut Floats<F>,
    ) -> (res: Result<Option<TokenLiteral>, LoxError>)
        requires
            old(self).wf(),
        ensures
            final(self).keeps(*old(self)),
            final(fpu).extends(old(fpu)),
            forall|o: Oracle| #[trigger]
                final(fpu).told(old(fpu), o) ==> final(self).gave(
                    flow_outcome(res),
                    final(fpu).asked(),
                    exec_if(old(self)@, statement@, fuel as nat, o, old(fpu).asked()),
                ),
        decreases fuel, 2int, statement, 0int,
    {
        let ghost asked = *fpu;
        match statement {
            Statement::If(cond, then_branch, else_branch) => {
                let c = match self.value_of(cond, fuel, fpu) {
                    Ok(v) => v,
                    Err(e) => {
                        return Err(e);
                    },
                };
                let ghost tested = *fpu;
                let res = if c.is_truthy() {
                    self.execute(then_branch, fuel, fpu)
                } else {
                    match else_branch {
                        Some(b) => self.execute(b, fuel, fpu),
                        None => Ok(None),
                    }
                };
                assert forall|o: Oracle| #[trigger] fpu.told(&asked, o) implies self.gave(
                    flow_outcome(res),
                    fpu.asked(),
                    exec_if(old(self)@, statement@, fuel as nat, o, asked.asked()),
                ) by {
                    lemma_told_in_parts(&asked, &tested, fpu, o);
                }
                res
            },
            _ => Ok(None),
        }
    }

    /// `while`.
    fn execute_while<F: FloatUnit>(
        &mut self,
        statement: &Statement,
        fuel: u64,
        fpu: &mut Floats<F>,
    ) -> (res: Result<Option<TokenLiteral>, LoxError>)
        requires
            old(self).wf(),
        ensures
            final(self).keeps(*old(self)),
            final(fpu).extends(old(fpu)),
            forall|o: Oracle| #[trigger]
                final(fpu).told(old(fpu), o) ==> final(self).gave(
                    flow_outcome(res),
                    final(fpu).asked(),
                    exec_while(old(self)@, statement@, fuel as nat, o, old(fpu).asked()),
                ),
        decreases fuel, 2int, statement, 0int,
    {
        let ghost asked = *fpu;
        match statement {
            Statement::While(cond, body) => {
                let mut left_over: u64 = fuel;
                loop
                    invariant
                        left_over <= fuel,
                        *statement == Statement::While(*cond, *body),
                        self.keeps(*old(self)),
                        fpu.extends(&asked),
                        asked == *old(fpu),
                        forall|o: Oracle| #[trigger]
                            fpu.told(&asked, o) ==> exec_while(
                                self@,
                                statement@,
                                left_over as nat,
                                o,
                                fpu.asked(),
                            ) == exec_while(
                                old(self)@,
                                statement@,
                                fuel as nat,
                                o,
                                asked.asked(),
                            ),
                    decreases left_over,
                {
                    let ghost here = *self;
                    let ghost before = *fpu;
                    let tested = self.value_of(cond, left_over, fpu);
                    let ghost after_test = *fpu;
                    let ghost at_test = *self;
                    assert forall|o: Oracle| #[trigger] fpu.told(&asked, o) implies self.gave(
                        value_outcome(tested),
                        fpu.asked(),
                        eval(here@, cond@, left_over as nat, o, before.asked()),
                    ) && exec_while(here@, statement@, left_over as nat, o, before.asked())
                        == exec_while(old(self)@, statement@, fuel as nat, o, asked.asked()) by {
                        lemma_told_in_parts(&asked, &before, fpu, o);
                    }
                    let c = match tested {
                        Ok(v) => v,
                        Err(e) => {
                            return Err(e);
                        },
                    };
                    if !c.is_truthy() {
                        return Ok(None);
                    }
                    let done = self.execute(body, left_over, fpu);
                    assert forall|o: Oracle| #[trigger] fpu.told(&asked, o) implies self.gave(
                        flow_outcome(done),
                        fpu.asked(),
                        exec(at_test@, body@, left_over as nat, o, after_test.asked()),
                    ) && at_test.gave(
                        value_outcome(tested),
                        after_test.asked(),
                        eval(here@, cond@, left_over as nat, o, before.asked()),
                    ) && exec_while(here@, statement@, left_over as nat, o, before.asked())
                        == exec_while(old(self)@, statement@, fuel as nat, o, asked.asked()) by {
                        lemma_told_in_parts(&asked, &after_test, fpu, o);
                        lemma_told_in_parts(&asked, &before, &after_test, o);
                    }
                    match done {
                        Ok(None) => {},
                        Ok(Some(v)) => {
                            return Ok(Some(v));
                        },
                        Err(e) => {
                            return Err(e);
                        },
                    }
                    if left_over == 0 {
                        return Err(LoxError::RuntimeException);
                    }
                    left_over -= 1;
                }
            },
            _ => Ok(None),
        }
    }
}

/// Whether a token kind is a binary operator.
fn is_operator(op: TokenType) -> (r: bool)
    ensures
        r == is_binary_operator(op),
{
    match op {
        TokenType::PLUS | TokenType::MINUS | TokenType::STAR | TokenType::SLASH
        | TokenType::EXPONENT | TokenType::GREATER | TokenType::GREATER_EQUAL | TokenType::LESS
        | TokenType::LESS_EQUAL | TokenType::BANG_EQUAL | TokenType::EQUAL_EQUAL => true,
        _ => false,
    }
}

/// An operator between two literals evaluates to the operator on their
/// values, and leaves the state as it was.
pub proof fn operator_on_literals(
    state: State,
    left: Value,
    operator: TokenView,
    right: Value,
    fuel: nat,
    o: Oracle,
    at: int,
)
    requires
        is_binary_operator(operator.token_type),
    ensures
        eval(
            state,
            Expr::Binary {
                left: Box::new(Expr::Literal(left)),
                operator,
                right: Box::new(Expr::Literal(right)),
            },
            fuel,
            o,
            at,
        ) == lifted(binary(operator.token_type, left, right, o, at), state),
{
    let e = Expr::Binary {
        left: Box::new(Expr::Literal(left)),
        operator,
        right: Box::new(Expr::Literal(right)),
    };
    assert(eval(state, e, fuel, o, at) == eval_binary(state, e, fuel, o, at));
    assert(eval(state, Expr::Literal(left), fuel, o, at) == fine(left, state, at));
    assert(eval(state, Expr::Literal(right), fuel, o, at) == fine(right, state, at));
}

/// An assignment to a name that no scope knows makes the name known to the
/// global scope: the assignment has the value assigned, and when every scope
/// above the global one has been left, the name is still bound to it.
pub proof fn assignment_to_unknown_name_is_global(
    state: State,
    name: TokenView,
    value: Expr,
    fuel: nat,
    o: Oracle,
    at: int,
)
    requires
        eval(state, value, fuel, o, at).outcome is Ok,
        eval(state, value, fuel, o, at).state.scopes.len() >= 1,
        lookup(eval(state, value, fuel, o, at).state.scopes, name.lexeme) is None,
    ensures
        ({
            let v = eval(state, value, fuel, o, at).outcome->Ok_0;
            let assigning = eval(state, Expr::Assign { name, value: Box::new(value) }, fuel, o, at);
            &&& assigning.outcome == Ok::<Value, LoxErrorView>(v)
            &&& assigning.state.scopes.len() == eval(state, value, fuel, o, at).state.scopes.len()
            &&& lookup(assigning.state.scopes.take(1), name.lexeme) == Some(v)
        }),
{
    let r = eval(state, value, fuel, o, at);
    let v = r.outcome->Ok_0;
    crate::environment::assignment_creates_global(r.state.scopes, name.lexeme, v);
}

/// A statement that fails does not stop the program: it leaves a note, and
/// the statements after it run in the state that it left.
pub proof fn failure_does_not_stop_the_program(
    state: State,
    items: Seq<Stmt>,
    from: int,
    fuel: nat,
    o: Oracle,
    at: int,
)
    requires
        0 <= from < items.len(),
        exec(state, items[from], fuel, o, at).outcome is Err,
    ensures
        ({
            let failed = exec(state, items[from], fuel, o, at);
            run(state, items, from, fuel, o, at) == run(
                State {
                    notes: failed.state.notes.push(failed.outcome->Err_0.text()),
                    ..failed.state
                },
                items,
                from + 1,
                fuel,
                o,
                failed.asked,
            )
        }),
{
}

/// `print` adds the text of the value to the output, as its last line, and
/// changes nothing else.
pub proof fn print_adds_a_line(state: State, e: Expr, fuel: nat, o: Oracle, at: int)
    requires
        eval(state, e, fuel, o, at).outcome is Ok,
    ensures
        ({
            let r = eval(state, e, fuel, o, at);
            let line = r.outcome->Ok_0.text(o, r.asked);
            exec(state, Stmt::Print(e), fuel, o, at) == fine(
                Flow::Next,
                State { output: r.state.output.push(line.value), ..r.state },
                line.asked,
            )
        }),
{
}

/// Binding parameters leaves the stack of scopes as deep as it was.
pub proof fn lemma_bound_keeps_depth(
    scopes: Seq<Scope>,
    params: Seq<TokenView>,
    arguments: Seq<Value>,
    from: int,
)
    ensures
        bound(scopes, params, arguments, from).len() == scopes.len(),
    decreases params.len() - from,
{
    if 0 <= from < params.len() && from < arguments.len() {
        lemma_bound_keeps_depth(
            defined(scopes, params[from].lexeme, arguments[from]),
            params,
            arguments,
            from + 1,
        );
    }
}

/// An assignment leaves the stack of scopes as deep as it was.
pub proof fn lemma_assigned_keeps_depth(scopes: Seq<Scope>, name: Seq<char>, value: Value)
    ensures
        assigned(scopes, name, value).len() == scopes.len(),
{
    if scopes.len() > 0 {
        lemma_holder_in_range(scopes, name);
    }
}

/// The scope that an assignment goes to is one of the stack.
pub proof fn lemma_holder_in_range(scopes: Seq<Scope>, name: Seq<char>)
    requires
        scopes.len() > 0,
    ensures
        0 <= crate::environment::holder(scopes, name) < scopes.len(),
    decreases scopes.len(),
{
    if scopes.len() > 1 && !scopes.last().contains_key(name) {
        lemma_holder_in_range(scopes.drop_last(), name);
    }
}

/// Scopes are entered and left in pairs: whatever an expression does, and
/// however it ends, it leaves the stack of scopes as deep as it found it, and
/// the global scope in it.
pub proof fn eval_keeps_depth(state: State, e: Expr, fuel: nat, o: Oracle, at: int)
    requires
        state.scopes.len() >= 1,
    ensures
        eval(state, e, fuel, o, at).state.scopes.len() == state.scopes.len(),
        eval(state, e, fuel, o, at).asked >= at,
    decreases fuel, 0int, e, 1int,
{
    match e {
        Expr::Grouping(inner) => {
            eval_keeps_depth(state, *inner, fuel, o, at);
        },
        Expr::Assign { name, value } => {
            eval_keeps_depth(state, *value, fuel, o, at);
            let r = eval(state, *value, fuel, o, at);
            if r.outcome is Ok {
                lemma_assigned_keeps_depth(r.state.scopes, name.lexeme, r.outcome->Ok_0);
            }
        },
        Expr::Unary { operator, right } => {
            assert(eval(state, e, fuel, o, at) == eval_unary(state, e, fuel, o, at));
            eval_keeps_depth(state, *right, fuel, o, at);
        },
        Expr::Binary { left, operator, right } => {
            assert(eval(state, e, fuel, o, at) == eval_binary(state, e, fuel, o, at));
            eval_keeps_depth(state, *left, fuel, o, at);
            let l = eval(state, *left, fuel, o, at);
            if l.outcome is Ok {
                eval_keeps_depth(l.state, *right, fuel, o, l.asked);
            }
        },
        Expr::Logical { left, operator, right } => {
            assert(eval(state, e, fuel, o, at) == eval_logical(state, e, fuel, o, at));
            eval_keeps_depth(state, *left, fuel, o, at);
            let l = eval(state, *left, fuel, o, at);
            if l.outcome is Ok {
                eval_keeps_depth(l.state, *right, fuel, o, l.asked);
            }
        },
        Expr::Call { callee, paren, arguments } => {
            assert(eval(state, e, fuel, o, at) == eval_call(state, e, fuel, o, at));
            arguments_keep_depth(state, arguments, 0, Seq::empty(), fuel, o, at);
            let args = eval_arguments(state, arguments, 0, Seq::empty(), fuel, o, at);
            match *callee {
                Expr::Variable(name) => {
                    if state.functions.contains_key(name.lexeme) && args.outcome is Ok && fuel
                        > 0 {
                        let f = state.functions[name.lexeme];
                        let inside = entered(args.state);
                        lemma_bound_keeps_depth(inside.scopes, f.params, args.outcome->Ok_0, 0);
                        exec_all_keeps_depth(
                            with_scopes(
                                inside,
                                bound(inside.scopes, f.params, args.outcome->Ok_0, 0),
                            ),
                            f.body,
                            0,
                            (fuel - 1) as nat,
                            o,
                            args.asked,
                        );
                    }
                },
                _ => {},
            }
        },
        _ => {},
    }
}

/// As [`eval_keeps_depth`], for the arguments of a call.
pub proof fn arguments_keep_depth(
    state: State,
    arguments: Seq<Expr>,
    from: int,
    so_far: Seq<Value>,
    fuel: nat,
    o: Oracle,
    at: int,
)
    requires
        state.scopes.len() >= 1,
    ensures
        eval_arguments(state, arguments, from, so_far, fuel, o, at).state.scopes.len()
            == state.scopes.len(),
        eval_arguments(state, arguments, from, so_far, fuel, o, at).asked >= at,
    decreases fuel, 0int, arguments, arguments.len() - from,
{
    if 0 <= from < arguments.len() {
        eval_keeps_depth(state, arguments[from], fuel, o, at);
        let r = eval(state, arguments[from], fuel, o, at);
        if r.outcome is Ok {
            arguments_keep_depth(
                r.state,
                arguments,
                from + 1,
                so_far.push(r.outcome->Ok_0),
                fuel,
                o,
                r.asked,
            );
        }
    }
}

/// As [`eval_keeps_depth`], for a statement: a block leaves the scope that
/// it entered, whether its statements end, return or fail.
pub proof fn exec_keeps_depth(state: State, s: Stmt, fuel: nat, o: Oracle, at: int)
    requires
        state.scopes.len() >= 1,
    ensures
        exec(state, s, fuel, o, at).state.scopes.len() == state.scopes.len(),
        exec(state, s, fuel, o, at).asked >= at,
    decreases fuel, 2int, s, 1int,
{
    match s {
        Stmt::Expression(e) => {
            eval_keeps_depth(state, e, fuel, o, at);
        },
        Stmt::Print(e) => {
            eval_keeps_depth(state, e, fuel, o, at);
        },
        Stmt::Var(name, initializer) => {
            if initializer is Some {
                eval_keeps_depth(state, initializer->0, fuel, o, at);
            }
        },
        Stmt::Return(_, value) => {
            if value is Some {
                eval_keeps_depth(state, value->0, fuel, o, at);
            }
        },
        Stmt::Block(items) => {
            exec_all_keeps_depth(entered(state), items, 0, fuel, o, at);
        },
        Stmt::If(cond, then_branch, else_branch) => {
            assert(exec(state, s, fuel, o, at) == exec_if(state, s, fuel, o, at));
            eval_keeps_depth(state, cond, fuel, o, at);
            let c = eval(state, cond, fuel, o, at);
            if c.outcome is Ok {
                if c.outcome->Ok_0.truthy() {
                    exec_keeps_depth(c.state, *then_branch, fuel, o, c.asked);
                } else if else_branch is Some {
                    exec_keeps_depth(c.state, *else_branch->0, fuel, o, c.asked);
                }
            }
        },
        Stmt::While(..) => {
            while_keeps_depth(state, s, fuel, o, at);
        },
        _ => {},
    }
}

/// As [`eval_keeps_depth`], for the statements of a block or a body.
pub proof fn exec_all_keeps_depth(
    state: State,
    items: Seq<Stmt>,
    from: int,
    fuel: nat,
    o: Oracle,
    at: int,
)
    requires
        state.scopes.len() >= 1,
    ensures
        exec_all(state, items, from, fuel, o, at).state.scopes.len() == state.scopes.len(),
        exec_all(state, items, from, fuel, o, at).asked >= at,
    decreases fuel, 2int, items, items.len() - from,
{
    if 0 <= from < items.len() {
        exec_keeps_depth(state, items[from], fuel, o, at);
        let r = exec(state, items[from], fuel, o, at);
        if r.outcome == Ok::<Flow, LoxErrorView>(Flow::Next) {
            exec_all_keeps_depth(r.state, items, from + 1, fuel, o, r.asked);
        }
    }
}

/// As [`eval_keeps_depth`], for a loop.
pub proof fn while_keeps_depth(state: State, s: Stmt, fuel: nat, o: Oracle, at: int)
    requires
        state.scopes.len() >= 1,
        s is While,
    ensures
        exec_while(state, s, fuel, o, at).state.scopes.len() == state.scopes.len(),
        exec_while(state, s, fuel, o, at).asked >= at,
    decreases fuel, 2int, s, 0int,
{
    match s {
        Stmt::While(cond, body) => {
            eval_keeps_depth(state, cond, fuel, o, at);
            let c = eval(state, cond, fuel, o, at);
            if c.outcome is Ok && c.outcome->Ok_0.truthy() {
                exec_keeps_depth(c.state, *body, fuel, o, c.asked);
                let r = exec(c.state, *body, fuel, o, c.asked);
                if r.outcome == Ok::<Flow, LoxErrorView>(Flow::Next) && fuel > 0 {
                    while_keeps_depth(r.state, s, (fuel - 1) as nat, o, r.asked);
                }
            }
        },
        _ => {},
    }
}

} // verus!
