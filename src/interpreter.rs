use crate::ast::{lemma_stmts_view_index, stmt_view, stmts_view, Expr, ExprView, Stmt, StmtView};
use crate::environment::{
    assigned, lemma_assigned_view, lemma_define_view, lemma_lookup_view, lemma_push_pop_view,
    lookup, scopes_view, undefined_message, EnvironmentStack,
};
use crate::error_reporter::{ErrorReporter, RuntimeError};
use crate::tokens::{Object, Token, TokenType, TokenView};
use crate::values::{
    check_number_operand, check_number_operands, equal_values, is_truthy, plus_operands,
    short_circuits, skips_right, truthy, values_equal, Sum, Value, ValueView,
};
use vstd::prelude::*;

verus! {

/// An operation on two numbers that the host's number type carries out.
#[derive(Debug, Clone, Copy, PartialEq, Eq, Structural)]
pub enum NumberOp {
    Add,
    Subtract,
    Multiply,
    Divide,
    Greater,
    GreaterEqual,
    Less,
    LessEqual,
    Equal,
}

/// What the evaluator asks of the host's number type: the number a numeral
/// denotes, a negation, or an operation on two numbers (a number for
/// arithmetic, a boolean for comparisons and equality).
pub enum NumberRequest<N> {
    Numeral(String),
    Negate(N),
    Apply(NumberOp, N, N),
}

/// The host answers every request, and equal requests alike.
pub open spec fn host_ok<N, H: Fn(NumberRequest<N>) -> Value<N>>(host: H) -> bool {
    &&& forall|q: NumberRequest<N>| call_requires(host, (q,))
    &&& forall|q: NumberRequest<N>, a: Value<N>, b: Value<N>|
        call_ensures(host, (q,), a) && call_ensures(host, (q,), b) ==> a@ == b@
}

/// The host's answer to a request.
pub open spec fn answer<N, H: Fn(NumberRequest<N>) -> Value<N>>(
    host: H,
    q: NumberRequest<N>,
) -> ValueView<N> {
    (choose|r: Value<N>| call_ensures(host, (q,), r))@
}

/// Mathematical model of a runtime error.
pub struct ErrorView {
    pub message: Seq<char>,
    pub token: TokenView,
}

pub open spec fn error_view(e: RuntimeError) -> ErrorView {
    ErrorView { message: e.message@, token: e.token@ }
}

pub open spec fn fails<T>(message: Seq<char>, token: Token) -> Result<T, ErrorView> {
    Err(ErrorView { message, token: token@ })
}

/// The first token written in an expression, where it has one: its operator,
/// its name or its closing parenthesis; a literal has none.
pub open spec fn expr_token(e: ExprView) -> Option<Token>
    decreases e,
{
    match e {
        ExprView::Unary(op, _) => Some(op),
        ExprView::Binary(_, op, _) => Some(op),
        ExprView::Logical(_, op, _) => Some(op),
        ExprView::Call(_, paren, _) => Some(paren),
        ExprView::Grouping(inner) => expr_token(*inner),
        ExprView::Literal(_) => None,
        ExprView::Variable(name) => Some(name),
        ExprView::Assignment(name, _) => Some(name),
    }
}

/// The error of a `while` loop that has run `fuel` iterations and whose
/// condition still holds. It names a token of the condition, or, for a
/// literal condition, a `while` keyword on no line (line 0).
pub open spec fn loop_limit_error(cond: ExprView) -> ErrorView {
    ErrorView {
        message: "Loop iteration limit reached."@,
        token: match expr_token(cond) {
            Some(t) => t@,
            None => TokenView {
                token_type: TokenType::While,
                lexeme: "while"@,
                literal: None,
                line: 0,
            },
        },
    }
}

/// The scopes, each value by its model.
pub type Scopes<N> = Seq<Map<Seq<char>, ValueView<N>>>;

pub open spec fn literal_value<N, H: Fn(NumberRequest<N>) -> Value<N>>(host: H, o: Object) -> ValueView<
    N,
> {
    match o {
        Object::String(s) => ValueView::String(s@),
        Object::Number(numeral) => answer(host, NumberRequest::Numeral(numeral)),
        Object::Boolean(b) => ValueView::Boolean(b),
        Object::Nil => ValueView::Nil,
    }
}

/// Value equality: numbers by the host's comparison, other values by
/// `equal_values`.
pub open spec fn equal<N, H: Fn(NumberRequest<N>) -> Value<N>>(
    host: H,
    a: ValueView<N>,
    b: ValueView<N>,
) -> bool {
    match (a, b) {
        (ValueView::Number(x), ValueView::Number(y)) => answer(
            host,
            NumberRequest::Apply(NumberOp::Equal, x, y),
        ) == ValueView::<N>::Boolean(true),
        _ => equal_values(a, b),
    }
}

/// An operator on two numbers, which fails unless both operands are numbers.
pub open spec fn numeric<N, H: Fn(NumberRequest<N>) -> Value<N>>(
    host: H,
    op: Token,
    n: NumberOp,
    a: ValueView<N>,
    b: ValueView<N>,
) -> Result<ValueView<N>, ErrorView> {
    match (a, b) {
        (ValueView::Number(x), ValueView::Number(y)) => Ok(answer(host, NumberRequest::Apply(n, x, y))),
        _ => fails("Operands must be two numbers"@, op),
    }
}

pub open spec fn binary_value<N, H: Fn(NumberRequest<N>) -> Value<N>>(
    host: H,
    op: Token,
    a: ValueView<N>,
    b: ValueView<N>,
) -> Result<ValueView<N>, ErrorView> {
    match op.token_type {
        TokenType::Minus => numeric(host, op, NumberOp::Subtract, a, b),
        TokenType::Slash => numeric(host, op, NumberOp::Divide, a, b),
        TokenType::Star => numeric(host, op, NumberOp::Multiply, a, b),
        TokenType::Greater => numeric(host, op, NumberOp::Greater, a, b),
        TokenType::GreaterEqual => numeric(host, op, NumberOp::GreaterEqual, a, b),
        TokenType::Less => numeric(host, op, NumberOp::Less, a, b),
        TokenType::LessEqual => numeric(host, op, NumberOp::LessEqual, a, b),
        TokenType::Plus => match (a, b) {
            (ValueView::Number(x), ValueView::Number(y)) => Ok(
                answer(host, NumberRequest::Apply(NumberOp::Add, x, y)),
            ),
            (ValueView::String(x), ValueView::String(y)) => Ok(ValueView::String(x + y)),
            _ => fails("Operands must be two numbers or two strings"@, op),
        },
        TokenType::BangEqual => Ok(ValueView::Boolean(!equal(host, a, b))),
        TokenType::EqualEqual => Ok(ValueView::Boolean(equal(host, a, b))),
        _ => fails("Unhandled token type"@, op),
    }
}

pub open spec fn unary_value<N, H: Fn(NumberRequest<N>) -> Value<N>>(
    host: H,
    op: Token,
    v: ValueView<N>,
) -> Result<ValueView<N>, ErrorView> {
    match op.token_type {
        TokenType::Minus => match v {
            ValueView::Number(n) => Ok(answer(host, NumberRequest::Negate(n))),
            _ => fails("Operand must be a number"@, op),
        },
        TokenType::Bang => Ok(ValueView::Boolean(!truthy(v))),
        _ => fails("Invalid operator"@, op),
    }
}

/// The value of an expression in the given scopes, and the scopes after it
/// (assignments change them). Operands are evaluated left to right; the
/// right operand of a short-circuited `and`/`or` is not evaluated at all.
pub open spec fn eval<N, H: Fn(NumberRequest<N>) -> Value<N>>(
    host: H,
    e: ExprView,
    env: Scopes<N>,
) -> (Result<ValueView<N>, ErrorView>, Scopes<N>)
    decreases e,
{
    match e {
        ExprView::Literal(o) => (Ok(literal_value(host, o)), env),
        ExprView::Grouping(inner) => eval(host, *inner, env),
        ExprView::Unary(op, right) => {
            let (r, env1) = eval(host, *right, env);
            match r {
                Ok(v) => (unary_value(host, op, v), env1),
                Err(err) => (Err(err), env1),
            }
        },
        ExprView::Binary(left, op, right) => {
            let (l, env1) = eval(host, *left, env);
            match l {
                Err(err) => (Err(err), env1),
                Ok(a) => {
                    let (r, env2) = eval(host, *right, env1);
                    match r {
                        Err(err) => (Err(err), env2),
                        Ok(b) => (binary_value(host, op, a, b), env2),
                    }
                },
            }
        },
        ExprView::Variable(name) => (
            match lookup(env, name.lexeme@) {
                Some(v) => Ok(v),
                None => fails(undefined_message(name.lexeme@), name),
            },
            env,
        ),
        ExprView::Assignment(name, value) => {
            let (r, env1) = eval(host, *value, env);
            match r {
                Err(err) => (Err(err), env1),
                Ok(v) => if lookup(env1, name.lexeme@) is Some {
                    (Ok(v), assigned(env1, name.lexeme@, v))
                } else {
                    (fails(undefined_message(name.lexeme@), name), env1)
                },
            }
        },
        ExprView::Logical(left, op, right) => {
            let (l, env1) = eval(host, *left, env);
            match l {
                Err(err) => (Err(err), env1),
                Ok(a) => if skips_right(op.token_type, a) {
                    (Ok(a), env1)
                } else {
                    eval(host, *right, env1)
                },
            }
        },
        ExprView::Call(_, paren, _) => (fails("Can only call functions and classes."@, paren), env),
    }
}

/// The state a statement runs in and leaves: the scopes, and every value
/// printed so far.
pub struct State<N> {
    pub env: Scopes<N>,
    pub out: Seq<ValueView<N>>,
}

pub open spec fn pop_scope<N>(env: Scopes<N>) -> Scopes<N> {
    if env.len() > 1 {
        env.drop_last()
    } else {
        env
    }
}

pub open spec fn define_in<N>(env: Scopes<N>, name: Seq<char>, v: ValueView<N>) -> Scopes<N> {
    env.update(env.len() - 1, env.last().insert(name, v))
}

/// Runs a statement. A `while` runs at most `fuel` iterations; a block leaves
/// its scope on every exit, an error included.
pub open spec fn exec<N, H: Fn(NumberRequest<N>) -> Value<N>>(
    host: H,
    s: StmtView,
    st: State<N>,
    fuel: nat,
) -> (Result<(), ErrorView>, State<N>)
    decreases s, 0nat,
{
    match s {
        StmtView::Expression(e) => {
            let (r, env1) = eval(host, e, st.env);
            (
                match r {
                    Ok(_) => Ok(()),
                    Err(err) => Err(err),
                },
                State { env: env1, out: st.out },
            )
        },
        StmtView::Print(e) => {
            let (r, env1) = eval(host, e, st.env);
            match r {
                Ok(v) => (Ok(()), State { env: env1, out: st.out.push(v) }),
                Err(err) => (Err(err), State { env: env1, out: st.out }),
            }
        },
        StmtView::Var(name, init) => {
            let (r, env1) = match init {
                Some(e) => eval(host, e, st.env),
                None => (Ok(ValueView::Nil), st.env),
            };
            match r {
                Ok(v) => (Ok(()), State { env: define_in(env1, name.lexeme@, v), out: st.out }),
                Err(err) => (Err(err), State { env: env1, out: st.out }),
            }
        },
        StmtView::Block(items) => {
            let (r, inner) = exec_items(
                host,
                items,
                State { env: st.env.push(Map::empty()), out: st.out },
                fuel,
            );
            (r, State { env: pop_scope(inner.env), out: inner.out })
        },
        StmtView::If(cond, then_branch, else_branch) => {
            let (r, env1) = eval(host, cond, st.env);
            let st1 = State { env: env1, out: st.out };
            match r {
                Err(err) => (Err(err), st1),
                Ok(c) => if truthy(c) {
                    exec(host, *then_branch, st1, fuel)
                } else {
                    match else_branch {
                        Some(b) => exec(host, *b, st1, fuel),
                        None => (Ok(()), st1),
                    }
                },
            }
        },
        StmtView::While(cond, body) => run_while(host, cond, *body, st, fuel, fuel),
    }
}

/// Runs a block's statements in order, stopping at the first error.
pub open spec fn exec_items<N, H: Fn(NumberRequest<N>) -> Value<N>>(
    host: H,
    items: Seq<StmtView>,
    st: State<N>,
    fuel: nat,
) -> (Result<(), ErrorView>, State<N>)
    decreases items, 0nat,
{
    if items.len() == 0 {
        (Ok(()), st)
    } else {
        let (r, st1) = exec(host, items[0], st, fuel);
        match r {
            Err(err) => (Err(err), st1),
            Ok(_) => exec_items(host, items.subrange(1, items.len() as int), st1, fuel),
        }
    }
}

/// A `while` loop with at most `left` more iterations; where the condition
/// still holds after them, the loop fails with `loop_limit_error`.
pub open spec fn run_while<N, H: Fn(NumberRequest<N>) -> Value<N>>(
    host: H,
    cond: ExprView,
    body: StmtView,
    st: State<N>,
    fuel: nat,
    left: nat,
) -> (Result<(), ErrorView>, State<N>)
    decreases body, left,
{
    let (r, env1) = eval(host, cond, st.env);
    let st1 = State { env: env1, out: st.out };
    match r {
        Err(err) => (Err(err), st1),
        Ok(c) => if !truthy(c) {
            (Ok(()), st1)
        } else if left == 0 {
            (Err(loop_limit_error(cond)), st1)
        } else {
            let (b, st2) = exec(host, body, st1, fuel);
            match b {
                Err(err) => (Err(err), st2),
                Ok(_) => run_while(host, cond, body, st2, fuel, (left - 1) as nat),
            }
        },
    }
}

/// Runs a program: each statement in turn; a runtime error ends only its own
/// statement, and is collected.
pub open spec fn run_program<N, H: Fn(NumberRequest<N>) -> Value<N>>(
    host: H,
    stmts: Seq<StmtView>,
    st: State<N>,
    fuel: nat,
) -> (State<N>, Seq<ErrorView>)
    decreases stmts.len(),
{
    if stmts.len() == 0 {
        (st, Seq::empty())
    } else {
        let (r, st1) = exec(host, stmts[0], st, fuel);
        let (st2, errs) = run_program(host, stmts.subrange(1, stmts.len() as int), st1, fuel);
        match r {
            Ok(_) => (st2, errs),
            Err(err) => (st2, seq![err] + errs),
        }
    }
}


/// `and` with a `false` left operand yields `false` whatever its right
/// operand is, and leaves the scopes as they were: the right operand, even
/// one that would fail (a division by a string, an undefined name), is never
/// evaluated.
pub proof fn lemma_false_and_never_evaluates_right<N, H: Fn(NumberRequest<N>) -> Value<N>>(
    host: H,
    and: Token,
    right: ExprView,
    env: Scopes<N>,
)
    requires
        and.token_type == TokenType::And,
    ensures
        eval(
            host,
            ExprView::Logical(
                Box::new(ExprView::Literal(Object::Boolean(false))),
                and,
                Box::new(right),
            ),
            env,
        ) == (Ok::<ValueView<N>, ErrorView>(ValueView::Boolean(false)), env),
{
    assert(eval(host, ExprView::Literal(Object::Boolean(false)), env) == (Ok::<
        ValueView<N>,
        ErrorView,
    >(ValueView::Boolean(false)), env));
}

/// A block that defines a name leaves the scopes as they were: an outer
/// binding of the same name, the global one included, keeps its value.
pub proof fn lemma_block_definition_leaves_outer_scopes<N, H: Fn(NumberRequest<N>) -> Value<N>>(
    host: H,
    name: Token,
    init: Object,
    st: State<N>,
    fuel: nat,
)
    requires
        st.env.len() >= 1,
    ensures
        ({
            let block = StmtView::Block(seq![StmtView::Var(name, Some(ExprView::Literal(init)))]);
            let (r, after) = exec(host, block, st, fuel);
            &&& r is Ok
            &&& after.env == st.env
            &&& after.out == st.out
        }),
{
    let items = seq![StmtView::Var(name, Some(ExprView::Literal(init)))];
    let inner = State { env: st.env.push(Map::empty()), out: st.out };
    let (r1, st1) = exec(host, items[0], inner, fuel);
    assert(items.subrange(1, 1) =~= Seq::<StmtView>::empty());
    assert(exec_items(host, items, inner, fuel) == exec_items(host, items.subrange(1, 1), st1, fuel));
    assert(st1.env.drop_last() =~= st.env);
}

/// A name defined only inside a block is undefined after it: using it there
/// fails with the undefined-variable error, naming its token.
pub proof fn lemma_block_local_undefined_after<N, H: Fn(NumberRequest<N>) -> Value<N>>(
    host: H,
    name: Token,
    init: Object,
    st: State<N>,
    fuel: nat,
)
    requires
        st.env.len() >= 1,
        lookup(st.env, name.lexeme@) is None,
    ensures
        ({
            let block = StmtView::Block(seq![StmtView::Var(name, Some(ExprView::Literal(init)))]);
            let after = exec(host, block, st, fuel).1;
            exec(host, StmtView::Print(ExprView::Variable(name)), after, fuel).0 == fails::<()>(
                undefined_message(name.lexeme@),
                name,
            )
        }),
{
    lemma_block_definition_leaves_outer_scopes(host, name, init, st, fuel);
}

/// Evaluation depends on the expression, the scopes and the host's answers
/// alone: evaluating the same expression in the same scopes twice gives the
/// same value and scopes.
pub proof fn lemma_eval_deterministic<N, H: Fn(NumberRequest<N>) -> Value<N>>(
    host: H,
    e: ExprView,
    env: Scopes<N>,
    f: ExprView,
    env2: Scopes<N>,
)
    requires
        e == f,
        env == env2,
    ensures
        eval(host, e, env) == eval(host, f, env2),
{
}

pub open spec fn result_view<N>(r: Result<Value<N>, RuntimeError>) -> Result<ValueView<N>, ErrorView> {
    match r {
        Ok(v) => Ok(v@),
        Err(e) => Err(error_view(e)),
    }
}

pub open spec fn unit_view(r: Result<(), RuntimeError>) -> Result<(), ErrorView> {
    match r {
        Ok(_) => Ok(()),
        Err(e) => Err(error_view(e)),
    }
}

/// Asks the host for a number operation.
fn ask<N, H: Fn(NumberRequest<N>) -> Value<N>>(host: &H, q: NumberRequest<N>) -> (r: Value<N>)
    requires
        host_ok(*host),
    ensures
        r@ == answer(*host, q),
{
    let ghost g = q;
    let r = host(q);
    proof {
        let c = choose|x: Value<N>| call_ensures(*host, (g,), x);
        assert(call_ensures(*host, (g,), c));
    }
    r
}

fn fail<T>(message: &str, token: &Token) -> (r: Result<T, RuntimeError>)
    ensures
        r matches Err(e) && error_view(e) == (ErrorView { message: message@, token: token@ }),
{
    Err(RuntimeError { message: message.to_owned(), token: token.duplicate() })
}

/// A tree-walking evaluator over one stack of scopes. `N` is the host's
/// number type; numerals, arithmetic and number comparisons are the host's,
/// passed to each call as a function of `NumberRequest`.
pub struct Interpreter<N> {
    pub error_reporter: ErrorReporter,
    environment: EnvironmentStack<Value<N>>,
    pub output: Vec<Value<N>>,
}

impl<N: Copy> Interpreter<N> {
    /// The scopes, each value by its model.
    pub closed spec fn scopes(&self) -> Scopes<N> {
        scopes_view(self.environment@)
    }

    /// The reporter that collects runtime errors.
    pub closed spec fn reporter(&self) -> ErrorReporter {
        self.error_reporter
    }

    /// The values printed so far.
    pub closed spec fn printed(&self) -> Seq<ValueView<N>> {
        self.output@.map_values(|v: Value<N>| v@)
    }

    pub open spec fn state(&self) -> State<N> {
        State { env: self.scopes(), out: self.printed() }
    }

    pub closed spec fn wf(&self) -> bool {
        self.environment.wf()
    }

    pub fn new() -> (r: Self)
        ensures
            r.wf(),
            r.scopes() == seq![Map::<Seq<char>, ValueView<N>>::empty()],
            r.printed().len() == 0,
            !r.reporter().had_error,
            !r.reporter().had_runtime_error,
            r.reporter().runtime_errors@.len() == 0,
    {
        let r = Interpreter {
            error_reporter: ErrorReporter::new(),
            environment: EnvironmentStack::new(),
            output: Vec::new(),
        };
        assert(Map::<Seq<char>, Value<N>>::empty().map_values(|v: Value<N>| v@) =~= Map::empty());
        assert(r.scopes() =~= seq![Map::<Seq<char>, ValueView<N>>::empty()]);
        r
    }

    /// The value of `name` in the innermost scope that binds it.
    pub fn get(&self, name: &Token) -> (r: Result<Value<N>, RuntimeError>)
        requires
            self.wf(),
        ensures
            result_view(r) == match lookup(self.scopes(), name.lexeme@) {
                Some(v) => Ok(v),
                None => fails(undefined_message(name.lexeme@), *name),
            },
    {
        proof {
            lemma_lookup_view(self.environment@, name.lexeme@);
        }
        match self.environment.get(name) {
            Ok(v) => Ok(v.duplicate()),
            Err(e) => Err(e),
        }
    }

    /// Evaluates an expression.
    pub fn evaluate<H: Fn(NumberRequest<N>) -> Value<N>>(&mut self, expr: &Expr, host: &H) -> (r:
        Result<Value<N>, RuntimeError>)
        requires
            old(self).wf(),
            host_ok(*host),
        ensures
            final(self).wf(),
            (result_view(r), final(self).scopes()) == eval(*host, expr@, old(self).scopes()),
            final(self).printed() == old(self).printed(),
            final(self).reporter() == old(self).reporter(),
        decreases expr,
    {
        match expr {
            Expr::Literal(o) => match o {
                Object::String(s) => Ok(Value::String(s.clone())),
                Object::Number(numeral) => Ok(ask(host, NumberRequest::Numeral(numeral.clone()))),
                Object::Boolean(b) => Ok(Value::Boolean(*b)),
                Object::Nil => Ok(Value::Nil),
            },
            Expr::Grouping(inner) => self.evaluate(inner, host),
            Expr::Unary(op, right) => {
                let v = self.evaluate(right, host)?;
                if op.token_type == TokenType::Minus {
                    let n = check_number_operand(op, &v)?;
                    Ok(ask(host, NumberRequest::Negate(n)))
                } else if op.token_type == TokenType::Bang {
                    Ok(Value::Boolean(!is_truthy(&v)))
                } else {
                    fail("Invalid operator", op)
                }
            },
            Expr::Binary(left, op, right) => {
                let a = self.evaluate(left, host)?;
                let b = self.evaluate(right, host)?;
                binary(host, op, &a, &b)
            },
            Expr::Variable(name) => {
                proof {
                    lemma_lookup_view(self.environment@, name.lexeme@);
                }
                match self.environment.get(name) {
                    Ok(v) => Ok(v.duplicate()),
                    Err(e) => Err(e),
                }
            },
            Expr::Assignment(name, value) => {
                let v = self.evaluate(value, host)?;
                let kept = v.duplicate();
                proof {
                    lemma_lookup_view(self.environment@, name.lexeme@);
                    lemma_assigned_view(self.environment@, name.lexeme@, kept);
                }
                match self.environment.assign(name, kept) {
                    Ok(_) => Ok(v),
                    Err(e) => Err(e),
                }
            },
            Expr::Logical(left, op, right) => {
                let a = self.evaluate(left, host)?;
                if short_circuits(op.token_type, &a) {
                    Ok(a)
                } else {
                    self.evaluate(right, host)
                }
            },
            Expr::Call(_, paren, _) => fail("Can only call functions and classes.", paren),
        }
    }

    /// Runs a statement; a `while` runs at most `fuel` iterations, and fails
    /// where its condition still holds after them.
    pub fn execute<H: Fn(NumberRequest<N>) -> Value<N>>(
        &mut self,
        stmt: &Stmt,
        host: &H,
        fuel: u64,
    ) -> (r: Result<(), RuntimeError>)
        requires
            old(self).wf(),
            host_ok(*host),
        ensures
            final(self).wf(),
            (unit_view(r), final(self).state()) == exec(*host, stmt@, old(self).state(), fuel as nat),
            final(self).reporter() == old(self).reporter(),
        decreases stmt, 0nat,
    {
        match stmt {
            Stmt::Expression(e) => {
                self.evaluate(e, host)?;
                Ok(())
            },
            Stmt::Print(e) => {
                let v = self.evaluate(e, host)?;
                let ghost before = self.output@;
                self.output.push(v);
                assert(self.printed() =~= before.map_values(|v: Value<N>| v@).push(v@));
                Ok(())
            },
            Stmt::Var(name, init) => {
                let v = match init {
                    Some(e) => self.evaluate(e, host)?,
                    None => Value::Nil,
                };
                proof {
                    self.environment.lemma_wf_nonempty();
                    lemma_define_view(self.environment@, name.lexeme@, v);
                    lemma_push_pop_view(self.environment@);
                }
                self.environment.define(name, v);
                Ok(())
            },
            Stmt::Block(items) => {
                proof {
                    self.environment.lemma_wf_nonempty();
                    lemma_push_pop_view(self.environment@);
                }
                self.environment.push_environment();
                let r = self.execute_block(items, host, fuel);
                proof {
                    self.environment.lemma_wf_nonempty();
                    lemma_push_pop_view(self.environment@);
                }
                self.environment.pop_environment();
                r
            },
            Stmt::If(cond, then_branch, else_branch) => {
                let c = self.evaluate(cond, host)?;
                if is_truthy(&c) {
                    self.execute(then_branch, host, fuel)
                } else {
                    match else_branch {
                        Some(b) => self.execute(b, host, fuel),
                        None => Ok(()),
                    }
                }
            },
            Stmt::While(cond, body) => self.run_while(cond, body, host, fuel),
        }
    }

    /// Runs the statements of a block in order, stopping at the first error.
    fn execute_block<H: Fn(NumberRequest<N>) -> Value<N>>(
        &mut self,
        items: &Vec<Stmt>,
        host: &H,
        fuel: u64,
    ) -> (r: Result<(), RuntimeError>)
        requires
            old(self).wf(),
            host_ok(*host),
        ensures
            final(self).wf(),
            (unit_view(r), final(self).state()) == exec_items(
                *host,
                stmts_view(items@),
                old(self).state(),
                fuel as nat,
            ),
            final(self).reporter() == old(self).reporter(),
        decreases items, 0nat,
    {
        let ghost sv = stmts_view(items@);
        let ghost goal = exec_items(*host, sv, self.state(), fuel as nat);
        proof {
            lemma_stmts_view_index(items@);
            assert(sv.subrange(0, sv.len() as int) =~= sv);
        }
        let mut i: usize = 0;
        while i < items.len()
            invariant
                self.wf(),
                host_ok(*host),
                sv == stmts_view(items@),
                sv.len() == items@.len(),
                forall|k: int| 0 <= k < items@.len() ==> #[trigger] sv[k] == stmt_view(items@[k]),
                i <= items@.len(),
                goal == exec_items(*host, sv.subrange(i as int, sv.len() as int), self.state(), fuel as nat),
                goal == exec_items(*host, sv, old(self).state(), fuel as nat),
                self.reporter() == old(self).reporter(),
            decreases items@.len() - i,
        {
            proof {
                assert(decreases_to!(*items => items@));
                assert(decreases_to!(items@ => items@[i as int]));
                assert(sv.subrange(i as int, sv.len() as int)[0] == sv[i as int]);
                assert(sv.subrange(i as int, sv.len() as int).subrange(1, sv.len() - i) =~= sv.subrange(
                    i + 1,
                    sv.len() as int,
                ));
            }
            let r = self.execute(&items[i], host, fuel);
            if r.is_err() {
                return r;
            }
            i = i + 1;
        }
        Ok(())
    }

    /// Runs a `while` loop for at most `fuel` iterations; it fails where its
    /// condition still holds after them.
    fn run_while<H: Fn(NumberRequest<N>) -> Value<N>>(
        &mut self,
        cond: &Expr,
        body: &Stmt,
        host: &H,
        fuel: u64,
    ) -> (r: Result<(), RuntimeError>)
        requires
            old(self).wf(),
            host_ok(*host),
        ensures
            final(self).wf(),
            (unit_view(r), final(self).state()) == run_while(
                *host,
                cond@,
                body@,
                old(self).state(),
                fuel as nat,
                fuel as nat,
            ),
            final(self).reporter() == old(self).reporter(),
        decreases body, fuel as nat + 1,
    {
        let ghost goal = run_while(*host, cond@, body@, self.state(), fuel as nat, fuel as nat);
        let mut left: u64 = fuel;
        loop
            invariant
                self.wf(),
                host_ok(*host),
                left <= fuel,
                goal == run_while(*host, cond@, body@, self.state(), fuel as nat, left as nat),
                goal == run_while(*host, cond@, body@, old(self).state(), fuel as nat, fuel as nat),
                self.reporter() == old(self).reporter(),
            decreases left,
        {
            let c = self.evaluate(cond, host)?;
            if !is_truthy(&c) {
                return Ok(());
            }
            if left == 0 {
                return Err(loop_limit(cond));
            }
            self.execute(body, host, fuel)?;
            left = left - 1;
        }
    }

    /// Runs a program: each statement in turn. A runtime error ends only its
    /// own statement; it is reported, and the run goes on with the next.
    pub fn interpret<H: Fn(NumberRequest<N>) -> Value<N>>(
        &mut self,
        statements: Vec<Stmt>,
        host: &H,
        fuel: u64,
    )
        requires
            old(self).wf(),
            host_ok(*host),
        ensures
            final(self).wf(),
            final(self).state() == run_program(
                *host,
                stmts_view(statements@),
                old(self).state(),
                fuel as nat,
            ).0,
            final(self).reporter().runtime_errors@.map_values(|e: RuntimeError| error_view(e))
                == old(self).reporter().runtime_errors@.map_values(|e: RuntimeError| error_view(e))
                + run_program(*host, stmts_view(statements@), old(self).state(), fuel as nat).1,
            final(self).reporter().had_runtime_error == (old(self).reporter().had_runtime_error
                || run_program(*host, stmts_view(statements@), old(self).state(), fuel as nat).1.len()
                > 0),
            final(self).reporter().had_error == old(self).reporter().had_error,
            final(self).reporter().diagnostics == old(self).reporter().diagnostics,
    {
        let ghost sv = stmts_view(statements@);
        let ghost goal = run_program(*host, sv, self.state(), fuel as nat);
        let ghost errs0 = self.error_reporter.runtime_errors@.map_values(|e: RuntimeError| error_view(e));
        let ghost mut errs: Seq<ErrorView> = Seq::empty();
        proof {
            lemma_stmts_view_index(statements@);
            assert(sv.subrange(0, sv.len() as int) =~= sv);
            assert(errs0 + errs =~= errs0);
        }
        let mut i: usize = 0;
        while i < statements.len()
            invariant
                self.wf(),
                host_ok(*host),
                sv == stmts_view(statements@),
                sv.len() == statements@.len(),
                forall|k: int| 0 <= k < statements@.len() ==> #[trigger] sv[k] == stmt_view(statements@[k]),
                i <= statements@.len(),
                goal.0 == run_program(*host, sv.subrange(i as int, sv.len() as int), self.state(), fuel as nat).0,
                goal.1 == errs + run_program(*host, sv.subrange(i as int, sv.len() as int), self.state(), fuel as nat).1,
                self.error_reporter.runtime_errors@.map_values(|e: RuntimeError| error_view(e)) == errs0 + errs,
                self.error_reporter.had_runtime_error == (old(self).error_reporter.had_runtime_error || errs.len() > 0),
                self.error_reporter.had_error == old(self).error_reporter.had_error,
                self.error_reporter.diagnostics == old(self).error_reporter.diagnostics,
            decreases statements@.len() - i,
        {
            let ghost rest = sv.subrange(i as int, sv.len() as int);
            proof {
                assert(rest[0] == sv[i as int]);
                assert(rest.subrange(1, rest.len() as int) =~= sv.subrange(i + 1, sv.len() as int));
            }
            let ghost before = self.error_reporter.runtime_errors@;
            match self.execute(&statements[i], host, fuel) {
                Ok(_) => {},
                Err(e) => {
                    let ghost ev = error_view(e);
                    self.error_reporter.runtime_error(e);
                    proof {
                        assert(self.error_reporter.runtime_errors@.map_values(|e: RuntimeError| error_view(e))
                            =~= before.map_values(|e: RuntimeError| error_view(e)).push(ev));
                        assert(errs0 + errs + seq![ev] =~= errs0 + (errs + seq![ev]));
                        assert(errs + (seq![ev] + run_program(*host, sv.subrange(i + 1, sv.len() as int), self.state(), fuel as nat).1)
                            =~= (errs + seq![ev]) + run_program(*host, sv.subrange(i + 1, sv.len() as int), self.state(), fuel as nat).1);
                        errs = errs + seq![ev];
                    }
                },
            }
            i = i + 1;
        }
        assert(errs + Seq::<ErrorView>::empty() =~= errs);
    }
}

/// The first token written in an expression, where it has one.
fn first_token(e: &Expr) -> (r: Option<Token>)
    ensures
        r == expr_token(e@),
    decreases e,
{
    match e {
        Expr::Unary(op, _) => Some(op.duplicate()),
        Expr::Binary(_, op, _) => Some(op.duplicate()),
        Expr::Logical(_, op, _) => Some(op.duplicate()),
        Expr::Call(_, paren, _) => Some(paren.duplicate()),
        Expr::Grouping(inner) => first_token(inner),
        Expr::Literal(_) => None,
        Expr::Variable(name) => Some(name.duplicate()),
        Expr::Assignment(name, _) => Some(name.duplicate()),
    }
}

/// The error of a loop that ran out of iterations.
fn loop_limit(cond: &Expr) -> (e: RuntimeError)
    ensures
        error_view(e) == loop_limit_error(cond@),
{
    let token = match first_token(cond) {
        Some(t) => t,
        None => Token::new(TokenType::While, "while".to_owned(), None, 0),
    };
    RuntimeError { message: "Loop iteration limit reached.".to_owned(), token }
}

fn numeric_result<N: Copy, H: Fn(NumberRequest<N>) -> Value<N>>(
    host: &H,
    op: &Token,
    n: NumberOp,
    a: &Value<N>,
    b: &Value<N>,
) -> (r: Result<Value<N>, RuntimeError>)
    requires
        host_ok(*host),
    ensures
        result_view(r) == numeric(*host, *op, n, a@, b@),
{
    let (x, y) = check_number_operands(op, a, b)?;
    Ok(ask(host, NumberRequest::Apply(n, x, y)))
}

fn same_value<N: Copy, H: Fn(NumberRequest<N>) -> Value<N>>(host: &H, a: &Value<N>, b: &Value<N>) -> (r:
    bool)
    requires
        host_ok(*host),
    ensures
        r == equal(*host, a@, b@),
{
    match values_equal(a, b) {
        Some(decided) => decided,
        None => match (a, b) {
            (Value::Number(x), Value::Number(y)) => {
                let answer = ask(host, NumberRequest::Apply(NumberOp::Equal, *x, *y));
                match answer {
                    Value::Boolean(t) => t,
                    _ => false,
                }
            },
            _ => false,
        },
    }
}

fn binary<N: Copy, H: Fn(NumberRequest<N>) -> Value<N>>(
    host: &H,
    op: &Token,
    a: &Value<N>,
    b: &Value<N>,
) -> (r: Result<Value<N>, RuntimeError>)
    requires
        host_ok(*host),
    ensures
        result_view(r) == binary_value(*host, *op, a@, b@),
{
    match op.token_type {
        TokenType::Minus => numeric_result(host, op, NumberOp::Subtract, a, b),
        TokenType::Slash => numeric_result(host, op, NumberOp::Divide, a, b),
        TokenType::Star => numeric_result(host, op, NumberOp::Multiply, a, b),
        TokenType::Greater => numeric_result(host, op, NumberOp::Greater, a, b),
        TokenType::GreaterEqual => numeric_result(host, op, NumberOp::GreaterEqual, a, b),
        TokenType::Less => numeric_result(host, op, NumberOp::Less, a, b),
        TokenType::LessEqual => numeric_result(host, op, NumberOp::LessEqual, a, b),
        TokenType::Plus => match plus_operands(op, a, b)? {
            Sum::Numbers(x, y) => Ok(ask(host, NumberRequest::Apply(NumberOp::Add, x, y))),
            Sum::Concatenation(s) => Ok(Value::String(s)),
        },
        TokenType::BangEqual => Ok(Value::Boolean(!same_value(host, a, b))),
        TokenType::EqualEqual => Ok(Value::Boolean(same_value(host, a, b))),
        _ => fail("Unhandled token type", op),
    }
}

} // verus!
