use crate::ast::{Expr, ExprView, Stmt, StmtView};
use crate::ast::{exprs_view, stmt_view, stmts_view};
use crate::error_reporter::{token_diagnostic, DiagnosticView, ErrorReporter};
use crate::scanner::{option_seq, scan_diagnostics, tokens_of};
use crate::tokens::{Object, Token, TokenType};
use vstd::prelude::*;

verus! {


/// The outcome of parsing one construct from a position: the tree (`None`
/// where a syntax error stopped the construct), the position after it, and
/// every diagnostic reported so far, those before the construct included.
pub struct Parsed<T> {
    pub value: Option<T>,
    pub pos: int,
    pub diags: Seq<DiagnosticView>,
}

pub open spec fn success<T>(value: T, pos: int, diags: Seq<DiagnosticView>) -> Parsed<T> {
    Parsed { value: Some(value), pos, diags }
}

pub open spec fn failure<T>(pos: int, diags: Seq<DiagnosticView>) -> Parsed<T> {
    Parsed { value: None, pos, diags }
}

/// A syntax error at the token at `p`, reported after the diagnostics `log`.
pub open spec fn error_at<T>(t: Seq<Token>, p: int, log: Seq<DiagnosticView>, message: Seq<char>) -> Parsed<T> {
    failure(p, log.push(token_diagnostic(t[p], message)))
}

pub open spec fn kind_at(t: Seq<Token>, p: int) -> TokenType {
    t[p].token_type
}

pub open spec fn at_end(t: Seq<Token>, p: int) -> bool {
    kind_at(t, p) == TokenType::Eof
}

/// The token at `p` is of kind `k` (never true at the end of input).
pub open spec fn check(t: Seq<Token>, p: int, k: TokenType) -> bool {
    0 <= p < t.len() && !at_end(t, p) && kind_at(t, p) == k
}

/// Positions never move back, nor past the end: `q` where it lies between `p`
/// and the length of `t`.
pub open spec fn later(t: Seq<Token>, p: int, q: int) -> int {
    if p <= q <= t.len() {
        q
    } else {
        p
    }
}

/// The termination rank of a binary precedence level.
pub open spec fn level_rank(level: nat) -> int {
    if level >= 5 {
        8
    } else {
        18 - 2 * level
    }
}

/// The operators of a binary precedence level, from 0 (lowest: `or`) to 5 (`*`, `/`).
pub open spec fn level_operator(level: nat, k: TokenType) -> bool {
    if level == 0 {
        k == TokenType::Or
    } else if level == 1 {
        k == TokenType::And
    } else if level == 2 {
        k == TokenType::BangEqual || k == TokenType::EqualEqual
    } else if level == 3 {
        k == TokenType::Greater || k == TokenType::GreaterEqual || k == TokenType::Less || k
            == TokenType::LessEqual
    } else if level == 4 {
        k == TokenType::Minus || k == TokenType::Plus
    } else {
        k == TokenType::Slash || k == TokenType::Star
    }
}

/// Levels 0 and 1 build logical nodes, which the evaluator short-circuits; the
/// others build binary nodes.
pub open spec fn combine(level: nat, left: ExprView, op: Token, right: ExprView) -> ExprView {
    if level <= 1 {
        ExprView::Logical(Box::new(left), op, Box::new(right))
    } else {
        ExprView::Binary(Box::new(left), op, Box::new(right))
    }
}

pub open spec fn parse_expression(t: Seq<Token>, p: int, log: Seq<DiagnosticView>) -> Parsed<ExprView>
    decreases t.len() - p, 20int,
{
    parse_assignment(t, p, log)
}

/// Assignment is right-associative; its target must be a bare variable, and
/// any other target is reported while the parsed left side stands.
pub open spec fn parse_assignment(t: Seq<Token>, p: int, log: Seq<DiagnosticView>) -> Parsed<ExprView>
    decreases t.len() - p, 19int,
{
    let left = parse_binary(t, p, 0, log);
    match left.value {
        None => left,
        Some(target) => {
            let q = later(t, p, left.pos);
            if check(t, q, TokenType::Equal) {
                let value = parse_assignment(t, q + 1, left.diags);
                match value.value {
                    None => value,
                    Some(v) => match target {
                        ExprView::Variable(name) => success(
                            ExprView::Assignment(name, Box::new(v)),
                            value.pos,
                            value.diags,
                        ),
                        _ => success(
                            target,
                            value.pos,
                            value.diags.push(token_diagnostic(t[q], "Invalid assignment target"@)),
                        ),
                    },
                }
            } else {
                left
            }
        },
    }
}

/// A left-associative chain of operands of level `level + 1` joined by
/// operators of `level`.
pub open spec fn parse_binary(t: Seq<Token>, p: int, level: nat, log: Seq<DiagnosticView>) -> Parsed<
    ExprView,
>
    decreases t.len() - p, level_rank(level),
{
    let left = if level >= 5 {
        parse_unary(t, p, log)
    } else {
        parse_binary(t, p, (level + 1) as nat, log)
    };
    match left.value {
        None => left,
        Some(e) => binary_rest(t, later(t, p, left.pos), level, e, left.diags),
    }
}

/// Folds further `operator operand` pairs of `level` onto `left`.
pub open spec fn binary_rest(
    t: Seq<Token>,
    q: int,
    level: nat,
    left: ExprView,
    log: Seq<DiagnosticView>,
) -> Parsed<ExprView>
    decreases t.len() - q, level_rank(level) - 1,
{
    if 0 <= q < t.len() && level_operator(level, kind_at(t, q)) {
        let op = t[q];
        let right = if level >= 5 {
            parse_unary(t, q + 1, log)
        } else {
            parse_binary(t, q + 1, (level + 1) as nat, log)
        };
        match right.value {
            None => right,
            Some(r) => binary_rest(
                t,
                later(t, q + 1, right.pos),
                level,
                combine(level, left, op, r),
                right.diags,
            ),
        }
    } else {
        success(left, q, log)
    }
}

pub open spec fn parse_unary(t: Seq<Token>, p: int, log: Seq<DiagnosticView>) -> Parsed<ExprView>
    decreases t.len() - p, 6int,
{
    if check(t, p, TokenType::Bang) || check(t, p, TokenType::Minus) {
        let right = parse_unary(t, p + 1, log);
        match right.value {
            None => right,
            Some(r) => success(ExprView::Unary(t[p], Box::new(r)), right.pos, right.diags),
        }
    } else {
        parse_call(t, p, log)
    }
}

pub open spec fn parse_call(t: Seq<Token>, p: int, log: Seq<DiagnosticView>) -> Parsed<ExprView>
    decreases t.len() - p, 5int,
{
    let callee = parse_primary(t, p, log);
    match callee.value {
        None => callee,
        Some(c) => call_rest(t, later(t, p, callee.pos), c, callee.diags),
    }
}

/// Applies any chained argument lists to `callee`.
pub open spec fn call_rest(t: Seq<Token>, q: int, callee: ExprView, log: Seq<DiagnosticView>) -> Parsed<
    ExprView,
>
    decreases t.len() - q, 4int,
{
    if check(t, q, TokenType::LeftParen) {
        let call = finish_call(t, q + 1, callee, log);
        match call.value {
            None => call,
            Some(c) => call_rest(t, later(t, q + 1, call.pos), c, call.diags),
        }
    } else {
        success(callee, q, log)
    }
}

/// The arguments and closing parenthesis of a call whose `(` lies before `q`.
pub open spec fn finish_call(t: Seq<Token>, q: int, callee: ExprView, log: Seq<DiagnosticView>) -> Parsed<
    ExprView,
>
    decreases t.len() - q, 25int,
{
    let args = if check(t, q, TokenType::RightParen) {
        success(Seq::empty(), q, log)
    } else {
        call_arguments(t, q, Seq::empty(), log)
    };
    match args.value {
        None => failure(args.pos, args.diags),
        Some(a) => {
            let close = later(t, q, args.pos);
            if check(t, close, TokenType::RightParen) {
                success(ExprView::Call(Box::new(callee), t[close], a), close + 1, args.diags)
            } else {
                error_at(t, close, args.diags, "Expect ')' after arguments."@)
            }
        },
    }
}

/// A comma-separated argument list, after the arguments `done`; from the
/// 256th argument on each one is reported (a call takes at most 255), and
/// parsing goes on.
pub open spec fn call_arguments(
    t: Seq<Token>,
    q: int,
    done: Seq<ExprView>,
    log: Seq<DiagnosticView>,
) -> Parsed<Seq<ExprView>>
    decreases t.len() - q, 24int,
{
    let arg = parse_expression(t, q, log);
    match arg.value {
        None => failure(arg.pos, arg.diags),
        Some(e) => {
            let all = done.push(e);
            let after = later(t, q, arg.pos);
            let diags = if all.len() > 255 {
                arg.diags.push(token_diagnostic(t[after], "Too many arguments in function call."@))
            } else {
                arg.diags
            };
            if check(t, after, TokenType::Comma) {
                call_arguments(t, after + 1, all, diags)
            } else {
                success(all, after, diags)
            }
        },
    }
}

pub open spec fn parse_primary(t: Seq<Token>, p: int, log: Seq<DiagnosticView>) -> Parsed<ExprView>
    decreases t.len() - p, 2int,
{
    if check(t, p, TokenType::False) {
        success(ExprView::Literal(Object::Boolean(false)), p + 1, log)
    } else if check(t, p, TokenType::True) {
        success(ExprView::Literal(Object::Boolean(true)), p + 1, log)
    } else if check(t, p, TokenType::Nil) {
        success(ExprView::Literal(Object::Nil), p + 1, log)
    } else if check(t, p, TokenType::Number) || check(t, p, TokenType::String) {
        success(ExprView::Literal(t[p].literal->0), p + 1, log)
    } else if check(t, p, TokenType::Identifier) {
        success(ExprView::Variable(t[p]), p + 1, log)
    } else if check(t, p, TokenType::LeftParen) {
        let inner = parse_expression(t, p + 1, log);
        match inner.value {
            None => inner,
            Some(e) => {
                let close = later(t, p + 1, inner.pos);
                if check(t, close, TokenType::RightParen) {
                    success(ExprView::Grouping(Box::new(e)), close + 1, inner.diags)
                } else {
                    error_at(t, close, inner.diags, "Expect ')' after expression."@)
                }
            },
        }
    } else {
        error_at(t, p, log, "Expect expression."@)
    }
}

pub open spec fn optional<T>(r: Parsed<T>) -> Parsed<Option<T>> {
    Parsed {
        value: match r.value {
            Some(v) => Some(Some(v)),
            None => None,
        },
        pos: r.pos,
        diags: r.diags,
    }
}

/// `stmt`, closed by a `;` at `q`.
pub open spec fn semicolon_after(
    t: Seq<Token>,
    q: int,
    stmt: StmtView,
    log: Seq<DiagnosticView>,
    message: Seq<char>,
) -> Parsed<StmtView> {
    if check(t, q, TokenType::Semicolon) {
        success(stmt, q + 1, log)
    } else {
        error_at(t, q, log, message)
    }
}

/// Token kinds that begin a statement, where error recovery stops.
pub open spec fn starts_statement(k: TokenType) -> bool {
    k == TokenType::Class || k == TokenType::For || k == TokenType::Fun || k == TokenType::If || k
        == TokenType::Print || k == TokenType::Return || k == TokenType::Var || k == TokenType::While
}

/// Error recovery from `q`: step over one token, then discard tokens up to the
/// one after a `;` or one that begins a statement.
pub open spec fn synchronize(t: Seq<Token>, q: int) -> int {
    if 0 <= q < t.len() && !at_end(t, q) {
        sync_from(t, q + 1)
    } else {
        q
    }
}

pub open spec fn sync_from(t: Seq<Token>, q: int) -> int
    decreases t.len() - q,
{
    if !(0 < q < t.len()) || at_end(t, q) {
        q
    } else if kind_at(t, q - 1) == TokenType::Semicolon || starts_statement(kind_at(t, q)) {
        q
    } else {
        sync_from(t, q + 1)
    }
}

/// The loop that a `for` statement stands for: the initializer, then a
/// `while` over the condition (`true` when absent) whose body is the written
/// body followed by the increment.
pub open spec fn desugared_for(
    initializer: Option<StmtView>,
    condition: Option<ExprView>,
    increment: Option<ExprView>,
    body: StmtView,
) -> StmtView {
    let looped = match increment {
        Some(i) => StmtView::Block(seq![body, StmtView::Expression(i)]),
        None => body,
    };
    let test = match condition {
        Some(c) => c,
        None => ExprView::Literal(Object::Boolean(true)),
    };
    let w = StmtView::While(test, Box::new(looped));
    match initializer {
        Some(init) => StmtView::Block(seq![init, w]),
        None => w,
    }
}

/// A declaration from `p`; a syntax error in it is recovered from by
/// synchronizing, and yields no statement.
pub open spec fn parse_declaration(t: Seq<Token>, p: int, log: Seq<DiagnosticView>) -> Parsed<
    Option<StmtView>,
>
    decreases t.len() - p, 30int,
{
    let r = if check(t, p, TokenType::Var) {
        parse_var_declaration(t, p + 1, log)
    } else {
        parse_statement(t, p, log)
    };
    match r.value {
        Some(s) => success(Some(s), r.pos, r.diags),
        None => success(None, synchronize(t, r.pos), r.diags),
    }
}

pub open spec fn parse_statement(t: Seq<Token>, p: int, log: Seq<DiagnosticView>) -> Parsed<StmtView>
    decreases t.len() - p, 29int,
{
    if check(t, p, TokenType::Print) {
        parse_print_statement(t, p + 1, log)
    } else if check(t, p, TokenType::LeftBrace) {
        let b = parse_block(t, p + 1, log);
        match b.value {
            Some(items) => success(StmtView::Block(items), b.pos, b.diags),
            None => failure(b.pos, b.diags),
        }
    } else if check(t, p, TokenType::If) {
        parse_if_statement(t, p + 1, log)
    } else if check(t, p, TokenType::While) {
        parse_while_statement(t, p + 1, log)
    } else if check(t, p, TokenType::For) {
        parse_for_statement(t, p + 1, log)
    } else {
        parse_expression_statement(t, p, log)
    }
}

pub open spec fn parse_print_statement(t: Seq<Token>, p: int, log: Seq<DiagnosticView>) -> Parsed<
    StmtView,
>
    decreases t.len() - p, 27int,
{
    let e = parse_expression(t, p, log);
    match e.value {
        None => failure(e.pos, e.diags),
        Some(x) => semicolon_after(
            t,
            later(t, p, e.pos),
            StmtView::Print(x),
            e.diags,
            "Expect ';' after value."@,
        ),
    }
}

pub open spec fn parse_expression_statement(
    t: Seq<Token>,
    p: int,
    log: Seq<DiagnosticView>,
) -> Parsed<StmtView>
    decreases t.len() - p, 27int,
{
    let e = parse_expression(t, p, log);
    match e.value {
        None => failure(e.pos, e.diags),
        Some(x) => semicolon_after(
            t,
            later(t, p, e.pos),
            StmtView::Expression(x),
            e.diags,
            "Expect ';' after value."@,
        ),
    }
}

/// A variable declaration whose `var` lies before `p`.
pub open spec fn parse_var_declaration(t: Seq<Token>, p: int, log: Seq<DiagnosticView>) -> Parsed<
    StmtView,
>
    decreases t.len() - p, 27int,
{
    if !check(t, p, TokenType::Identifier) {
        error_at(t, p, log, "Expect variable name."@)
    } else if check(t, p + 1, TokenType::Equal) {
        let init = parse_expression(t, p + 2, log);
        match init.value {
            None => failure(init.pos, init.diags),
            Some(x) => semicolon_after(
                t,
                later(t, p + 2, init.pos),
                StmtView::Var(t[p], Some(x)),
                init.diags,
                "Expect ';' after variable declaration."@,
            ),
        }
    } else {
        semicolon_after(
            t,
            p + 1,
            StmtView::Var(t[p], None),
            log,
            "Expect ';' after variable declaration."@,
        )
    }
}

pub open spec fn parse_while_statement(t: Seq<Token>, p: int, log: Seq<DiagnosticView>) -> Parsed<
    StmtView,
>
    decreases t.len() - p, 27int,
{
    if !check(t, p, TokenType::LeftParen) {
        error_at(t, p, log, "Expect '(' after 'while'."@)
    } else {
        let c = parse_expression(t, p + 1, log);
        match c.value {
            None => failure(c.pos, c.diags),
            Some(cond) => {
                let q = later(t, p + 1, c.pos);
                if !check(t, q, TokenType::RightParen) {
                    error_at(t, q, c.diags, "Expect ')' after condition."@)
                } else {
                    let body = parse_statement(t, q + 1, c.diags);
                    match body.value {
                        None => failure(body.pos, body.diags),
                        Some(b) => success(StmtView::While(cond, Box::new(b)), body.pos, body.diags),
                    }
                }
            },
        }
    }
}

/// An `if` statement; an `else` belongs to the nearest `if`.
pub open spec fn parse_if_statement(t: Seq<Token>, p: int, log: Seq<DiagnosticView>) -> Parsed<
    StmtView,
>
    decreases t.len() - p, 27int,
{
    if !check(t, p, TokenType::LeftParen) {
        error_at(t, p, log, "Expect '(' after 'if'."@)
    } else {
        let c = parse_expression(t, p + 1, log);
        match c.value {
            None => failure(c.pos, c.diags),
            Some(cond) => {
                let q = later(t, p + 1, c.pos);
                if !check(t, q, TokenType::RightParen) {
                    error_at(t, q, c.diags, "Expect ')' after if condition."@)
                } else {
                    let then_branch = parse_statement(t, q + 1, c.diags);
                    match then_branch.value {
                        None => failure(then_branch.pos, then_branch.diags),
                        Some(th) => {
                            let r = later(t, q + 1, then_branch.pos);
                            if check(t, r, TokenType::Else) {
                                let else_branch = parse_statement(t, r + 1, then_branch.diags);
                                match else_branch.value {
                                    None => failure(else_branch.pos, else_branch.diags),
                                    Some(el) => success(
                                        StmtView::If(cond, Box::new(th), Some(Box::new(el))),
                                        else_branch.pos,
                                        else_branch.diags,
                                    ),
                                }
                            } else {
                                success(StmtView::If(cond, Box::new(th), None), r, then_branch.diags)
                            }
                        },
                    }
                }
            },
        }
    }
}

/// A `for` statement, desugared into the loop it stands for.
pub open spec fn parse_for_statement(t: Seq<Token>, p: int, log: Seq<DiagnosticView>) -> Parsed<
    StmtView,
>
    decreases t.len() - p, 27int,
{
    if !check(t, p, TokenType::LeftParen) {
        error_at(t, p, log, "Expect '(' after 'for'."@)
    } else {
        let init = for_initializer(t, p + 1, log);
        match init.value {
            None => failure(init.pos, init.diags),
            Some(initializer) => for_condition(t, later(t, p + 1, init.pos), initializer, init.diags),
        }
    }
}

/// The initializer clause of a `for`: empty, a declaration, or an expression statement.
pub open spec fn for_initializer(t: Seq<Token>, q: int, log: Seq<DiagnosticView>) -> Parsed<
    Option<StmtView>,
>
    decreases t.len() - q, 28int,
{
    if check(t, q, TokenType::Semicolon) {
        success(None, q + 1, log)
    } else if check(t, q, TokenType::Var) {
        optional(parse_var_declaration(t, q + 1, log))
    } else {
        optional(parse_expression_statement(t, q, log))
    }
}

/// The condition clause of a `for` and what follows it.
pub open spec fn for_condition(
    t: Seq<Token>,
    q: int,
    initializer: Option<StmtView>,
    log: Seq<DiagnosticView>,
) -> Parsed<StmtView>
    decreases t.len() - q, 28int,
{
    let cond = if !check(t, q, TokenType::Semicolon) {
        optional(parse_expression(t, q, log))
    } else {
        success(None, q, log)
    };
    match cond.value {
        None => failure(cond.pos, cond.diags),
        Some(condition) => {
            let q3 = later(t, q, cond.pos);
            if !check(t, q3, TokenType::Semicolon) {
                error_at(t, q3, cond.diags, "Expect ';' after loop condition."@)
            } else {
                for_increment(t, q3 + 1, initializer, condition, cond.diags)
            }
        },
    }
}

/// The increment clause of a `for`, its `)` and its body.
pub open spec fn for_increment(
    t: Seq<Token>,
    q: int,
    initializer: Option<StmtView>,
    condition: Option<ExprView>,
    log: Seq<DiagnosticView>,
) -> Parsed<StmtView>
    decreases t.len() - q, 28int,
{
    let inc = if !check(t, q, TokenType::RightParen) {
        optional(parse_expression(t, q, log))
    } else {
        success(None, q, log)
    };
    match inc.value {
        None => failure(inc.pos, inc.diags),
        Some(increment) => {
            let q4 = later(t, q, inc.pos);
            if !check(t, q4, TokenType::RightParen) {
                error_at(t, q4, inc.diags, "Expect ')' after for clauses."@)
            } else {
                let body = parse_statement(t, q4 + 1, inc.diags);
                match body.value {
                    None => failure(body.pos, body.diags),
                    Some(b) => success(
                        desugared_for(initializer, condition, increment, b),
                        body.pos,
                        body.diags,
                    ),
                }
            }
        },
    }
}

/// The declarations of a block up to its `}` or the end of input.
pub open spec fn block_items(t: Seq<Token>, p: int, log: Seq<DiagnosticView>) -> Parsed<
    Seq<StmtView>,
>
    decreases t.len() - p, 31int,
{
    if 0 <= p < t.len() && !check(t, p, TokenType::RightBrace) && !at_end(t, p) {
        let d = parse_declaration(t, p, log);
        let item = option_seq(d.value->0);
        if p < d.pos <= t.len() {
            let rest = block_items(t, d.pos, d.diags);
            success(item + rest.value->0, rest.pos, rest.diags)
        } else {
            success(item, d.pos, d.diags)
        }
    } else {
        success(Seq::empty(), p, log)
    }
}

/// The declarations of a block always parse into a list; errors in them are
/// recovered from one by one.
pub proof fn lemma_block_items_some(t: Seq<Token>, p: int, log: Seq<DiagnosticView>)
    ensures
        block_items(t, p, log).value is Some,
    decreases t.len() - p,
{
    if 0 <= p < t.len() && !check(t, p, TokenType::RightBrace) && !at_end(t, p) {
        let d = parse_declaration(t, p, log);
        if p < d.pos <= t.len() {
            lemma_block_items_some(t, d.pos, d.diags);
        }
    }
}

/// One declaration of a block, and the rest.
pub proof fn lemma_block_items_step(t: Seq<Token>, p: int, log: Seq<DiagnosticView>)
    requires
        0 <= p < t.len(),
        !check(t, p, TokenType::RightBrace),
        !at_end(t, p),
        p < parse_declaration(t, p, log).pos <= t.len(),
    ensures
        ({
            let d = parse_declaration(t, p, log);
            let rest = block_items(t, d.pos, d.diags);
            block_items(t, p, log) == success(
                option_seq(d.value->0) + rest.value->0,
                rest.pos,
                rest.diags,
            )
        }),
{
}

/// A block whose `{` lies before `p`.
pub open spec fn parse_block(t: Seq<Token>, p: int, log: Seq<DiagnosticView>) -> Parsed<
    Seq<StmtView>,
>
    decreases t.len() - p, 32int,
{
    let items = block_items(t, p, log);
    let q = later(t, p, items.pos);
    if check(t, q, TokenType::RightBrace) {
        success(items.value->0, q + 1, items.diags)
    } else {
        error_at(t, q, items.diags, "Expect '}' after block."@)
    }
}

/// The statements of a program from `p` to the end of input, and every
/// diagnostic reported, after those of `log`.
pub open spec fn parse_program(t: Seq<Token>, p: int, log: Seq<DiagnosticView>) -> (
    Seq<StmtView>,
    Seq<DiagnosticView>,
)
    decreases t.len() - p,
{
    if 0 <= p < t.len() && !at_end(t, p) {
        let d = parse_declaration(t, p, log);
        let item = option_seq(d.value->0);
        if p < d.pos <= t.len() {
            let rest = parse_program(t, d.pos, d.diags);
            (item + rest.0, rest.1)
        } else {
            (item, d.diags)
        }
    } else {
        (Seq::empty(), log)
    }
}

/// One declaration of a program, and the rest.
pub proof fn lemma_program_step(t: Seq<Token>, p: int, log: Seq<DiagnosticView>)
    requires
        0 <= p < t.len(),
        !at_end(t, p),
        p < parse_declaration(t, p, log).pos <= t.len(),
    ensures
        ({
            let d = parse_declaration(t, p, log);
            let rest = parse_program(t, d.pos, d.diags);
            parse_program(t, p, log) == (option_seq(d.value->0) + rest.0, rest.1)
        }),
{
}

/// The statements that a whole token sequence parses into.
pub open spec fn statements_of(t: Seq<Token>) -> Seq<StmtView> {
    parse_program(t, 0, Seq::empty()).0
}

/// The diagnostics of parsing a whole token sequence.
pub open spec fn parse_diagnostics(t: Seq<Token>) -> Seq<DiagnosticView> {
    parse_program(t, 0, Seq::empty()).1
}

/// Scanning and parsing depend on their input alone: equal texts scan into
/// equal tokens and diagnostics, and equal token sequences parse into equal
/// statements and diagnostics.
pub proof fn lemma_front_end_deterministic(a: Seq<char>, b: Seq<char>, s: Seq<Token>, u: Seq<Token>)
    requires
        a == b,
        s == u,
    ensures
        tokens_of(a) == tokens_of(b),
        scan_diagnostics(a) == scan_diagnostics(b),
        statements_of(s) == statements_of(u),
        parse_diagnostics(s) == parse_diagnostics(u),
{
}

/// A token sequence the parser accepts: closed by an end-of-input token, with
/// a literal on every number and string token (as the scanner makes them).
pub open spec fn tokens_wf(t: Seq<Token>) -> bool {
    &&& t.len() > 0
    &&& t.last().token_type == TokenType::Eof
    &&& forall|i: int|
        0 <= i < t.len() && (t[i].token_type == TokenType::Number || t[i].token_type
            == TokenType::String) ==> (#[trigger] t[i]).literal is Some
}

/// Marks a construct that a syntax error stopped; the error is already reported.
struct ParseError;

pub open spec fn expr_result<E>(r: Result<Expr, E>) -> Option<ExprView> {
    match r {
        Ok(e) => Some(e@),
        Err(_) => None,
    }
}

pub open spec fn stmt_result<E>(r: Result<Stmt, E>) -> Option<StmtView> {
    match r {
        Ok(s) => Some(s@),
        Err(_) => None,
    }
}

fn level_matches(level: usize, k: TokenType) -> (r: bool)
    ensures
        r == level_operator(level as nat, k),
{
    if level == 0 {
        k == TokenType::Or
    } else if level == 1 {
        k == TokenType::And
    } else if level == 2 {
        k == TokenType::BangEqual || k == TokenType::EqualEqual
    } else if level == 3 {
        k == TokenType::Greater || k == TokenType::GreaterEqual || k == TokenType::Less || k
            == TokenType::LessEqual
    } else if level == 4 {
        k == TokenType::Minus || k == TokenType::Plus
    } else {
        k == TokenType::Slash || k == TokenType::Star
    }
}

/// Recursive-descent parser over a token sequence.
pub struct Parser {
    tokens: Vec<Token>,
    current: usize,
    pub error_reporter: ErrorReporter,
}

impl Parser {
    /// The tokens being parsed.
    pub closed spec fn token_seq(&self) -> Seq<Token> {
        self.tokens@
    }

    /// The index of the next token.
    pub closed spec fn position(&self) -> int {
        self.current as int
    }

    /// The reporter that collects this parser's diagnostics.
    pub closed spec fn reporter(&self) -> ErrorReporter {
        self.error_reporter
    }

    pub closed spec fn wf(&self) -> bool {
        &&& tokens_wf(self.tokens@)
        &&& self.current < self.tokens@.len()
        &&& self.error_reporter.had_error == (self.error_reporter.diags().len() > 0)
    }

    /// After a parse from `before`, the parser stands where `s` says, has
    /// reported what `s` says, and `value` is what `s` says.
    spec fn follows<T>(&self, before: Parser, value: Option<T>, s: Parsed<T>) -> bool {
        &&& value == s.value
        &&& self.current == s.pos
        &&& self.error_reporter.diags() == s.diags
        &&& self.error_reporter.had_runtime_error == before.error_reporter.had_runtime_error
        &&& self.error_reporter.runtime_errors == before.error_reporter.runtime_errors
        &&& self.tokens@ == before.tokens@
        &&& self.wf()
        &&& before.current <= self.current
    }

    pub fn new(tokens: Vec<Token>) -> (r: Self)
        requires
            tokens_wf(tokens@),
        ensures
            r.wf(),
            r.token_seq() == tokens@,
            r.position() == 0,
            !r.reporter().had_error,
            !r.reporter().had_runtime_error,
            r.reporter().diags().len() == 0,
    {
        Parser { tokens, current: 0, error_reporter: ErrorReporter::new() }
    }

    fn is_at_end(&self) -> (r: bool)
        requires
            self.wf(),
        ensures
            r == at_end(self.tokens@, self.current as int),
    {
        self.tokens[self.current].token_type == TokenType::Eof
    }

    fn check(&self, k: TokenType) -> (r: bool)
        requires
            self.wf(),
        ensures
            r == check(self.tokens@, self.current as int, k),
    {
        !self.is_at_end() && self.tokens[self.current].token_type == k
    }

    /// Steps over the current token, unless it is the end of input.
    fn advance(&mut self)
        requires
            old(self).wf(),
        ensures
            final(self).wf(),
            final(self).tokens == old(self).tokens,
            final(self).error_reporter == old(self).error_reporter,
            final(self).current == if at_end(old(self).tokens@, old(self).current as int) {
                old(self).current as int
            } else {
                old(self).current + 1
            },
    {
        if !self.is_at_end() && self.current < self.tokens.len() - 1 {
            self.current = self.current + 1;
        }
    }

    /// A copy of the current token.
    fn peek(&self) -> (r: Token)
        requires
            self.wf(),
        ensures
            r == self.tokens@[self.current as int],
    {
        self.tokens[self.current].duplicate()
    }

    /// Consumes the current token where it is of kind `k`, else reports
    /// `message` at it.
    fn consume(&mut self, k: TokenType, message: &str) -> (r: Result<Token, ParseError>)
        requires
            old(self).wf(),
        ensures
            final(self).wf(),
            final(self).tokens == old(self).tokens,
            check(old(self).tokens@, old(self).current as int, k) ==> {
                &&& r == Ok::<Token, ParseError>(old(self).tokens@[old(self).current as int])
                &&& final(self).current == old(self).current + 1
                &&& final(self).error_reporter == old(self).error_reporter
            },
            !check(old(self).tokens@, old(self).current as int, k) ==> {
                &&& r is Err
                &&& final(self).current == old(self).current
                &&& final(self).error_reporter.diags() == old(self).error_reporter.diags().push(
                    token_diagnostic(old(self).tokens@[old(self).current as int], message@),
                )
                &&& final(self).error_reporter.had_error
                &&& final(self).error_reporter.had_runtime_error
                    == old(self).error_reporter.had_runtime_error
                &&& final(self).error_reporter.runtime_errors
                    == old(self).error_reporter.runtime_errors
            },
    {
        let token = self.peek();
        if self.check(k) {
            self.advance();
            Ok(token)
        } else {
            self.error_reporter.error_at_token(&token, message);
            Err(ParseError)
        }
    }

    fn expression(&mut self) -> (r: Result<Expr, ParseError>)
        requires
            old(self).wf(),
        ensures
            final(self).follows(
                *old(self),
                expr_result(r),
                parse_expression(old(self).tokens@, old(self).current as int, old(self).error_reporter.diags()),
            ),
            r is Ok ==> final(self).current > old(self).current,
        decreases old(self).tokens@.len() - old(self).current, 20int,
    {
        self.assignment()
    }

    fn assignment(&mut self) -> (r: Result<Expr, ParseError>)
        requires
            old(self).wf(),
        ensures
            final(self).follows(
                *old(self),
                expr_result(r),
                parse_assignment(old(self).tokens@, old(self).current as int, old(self).error_reporter.diags()),
            ),
            r is Ok ==> final(self).current > old(self).current,
        decreases old(self).tokens@.len() - old(self).current, 19int,
    {
        let expr = self.binary(0)?;
        if self.check(TokenType::Equal) {
            let equals = self.peek();
            self.advance();
            let value = self.assignment()?;
            match expr {
                Expr::Variable(name) => Ok(Expr::Assignment(name, Box::new(value))),
                _ => {
                    self.error_reporter.error_at_token(&equals, "Invalid assignment target");
                    Ok(expr)
                },
            }
        } else {
            Ok(expr)
        }
    }

    fn binary(&mut self, level: usize) -> (r: Result<Expr, ParseError>)
        requires
            old(self).wf(),
            level <= 5,
        ensures
            final(self).follows(
                *old(self),
                expr_result(r),
                parse_binary(old(self).tokens@, old(self).current as int, level as nat, old(self).error_reporter.diags()),
            ),
            r is Ok ==> final(self).current > old(self).current,
        decreases old(self).tokens@.len() - old(self).current, level_rank(level as nat),
    {
        let left = if level >= 5 {
            self.unary()?
        } else {
            self.binary(level + 1)?
        };
        self.binary_rest(level, left)
    }

    fn binary_rest(&mut self, level: usize, left: Expr) -> (r: Result<Expr, ParseError>)
        requires
            old(self).wf(),
            level <= 5,
        ensures
            final(self).follows(
                *old(self),
                expr_result(r),
                binary_rest(old(self).tokens@, old(self).current as int, level as nat, left@, old(self).error_reporter.diags()),
            ),
        decreases old(self).tokens@.len() - old(self).current, level_rank(level as nat) - 1,
    {
        if level_matches(level, self.tokens[self.current].token_type) {
            let op = self.peek();
            self.advance();
            let right = if level >= 5 {
                self.unary()?
            } else {
                self.binary(level + 1)?
            };
            let e = if level <= 1 {
                Expr::Logical(Box::new(left), op, Box::new(right))
            } else {
                Expr::Binary(Box::new(left), op, Box::new(right))
            };
            self.binary_rest(level, e)
        } else {
            Ok(left)
        }
    }

    fn unary(&mut self) -> (r: Result<Expr, ParseError>)
        requires
            old(self).wf(),
        ensures
            final(self).follows(
                *old(self),
                expr_result(r),
                parse_unary(old(self).tokens@, old(self).current as int, old(self).error_reporter.diags()),
            ),
            r is Ok ==> final(self).current > old(self).current,
        decreases old(self).tokens@.len() - old(self).current, 6int,
    {
        if self.check(TokenType::Bang) || self.check(TokenType::Minus) {
            let op = self.peek();
            self.advance();
            let right = self.unary()?;
            Ok(Expr::Unary(op, Box::new(right)))
        } else {
            self.call()
        }
    }

    fn call(&mut self) -> (r: Result<Expr, ParseError>)
        requires
            old(self).wf(),
        ensures
            final(self).follows(
                *old(self),
                expr_result(r),
                parse_call(old(self).tokens@, old(self).current as int, old(self).error_reporter.diags()),
            ),
            r is Ok ==> final(self).current > old(self).current,
        decreases old(self).tokens@.len() - old(self).current, 5int,
    {
        let callee = self.primary()?;
        self.call_rest(callee)
    }

    fn call_rest(&mut self, callee: Expr) -> (r: Result<Expr, ParseError>)
        requires
            old(self).wf(),
        ensures
            final(self).follows(
                *old(self),
                expr_result(r),
                call_rest(old(self).tokens@, old(self).current as int, callee@, old(self).error_reporter.diags()),
            ),
        decreases old(self).tokens@.len() - old(self).current, 4int,
    {
        if self.check(TokenType::LeftParen) {
            self.advance();
            let c = self.finish_call(callee)?;
            self.call_rest(c)
        } else {
            Ok(callee)
        }
    }

    fn finish_call(&mut self, callee: Expr) -> (r: Result<Expr, ParseError>)
        requires
            old(self).wf(),
        ensures
            final(self).follows(
                *old(self),
                expr_result(r),
                finish_call(old(self).tokens@, old(self).current as int, callee@, old(self).error_reporter.diags()),
            ),
            r is Ok ==> final(self).current > old(self).current,
        decreases old(self).tokens@.len() - old(self).current, 25int,
    {
        assert(exprs_view(Seq::<Expr>::empty()) =~= Seq::<ExprView>::empty());
        let arguments = if self.check(TokenType::RightParen) {
            Vec::new()
        } else {
            match self.call_arguments(Vec::new()) {
                Ok(a) => a,
                Err(e) => {
                    return Err(e);
                },
            }
        };
        let paren = self.consume(TokenType::RightParen, "Expect ')' after arguments.")?;
        Ok(Expr::Call(Box::new(callee), paren, arguments))
    }

    fn call_arguments(&mut self, done: Vec<Expr>) -> (r: Result<Vec<Expr>, ParseError>)
        requires
            old(self).wf(),
        ensures
            final(self).follows(
                *old(self),
                match r {
                    Ok(a) => Some(exprs_view(a@)),
                    Err(_) => None,
                },
                call_arguments(old(self).tokens@, old(self).current as int, exprs_view(done@), old(self).error_reporter.diags()),
            ),
            r is Ok ==> final(self).current > old(self).current,
        decreases old(self).tokens@.len() - old(self).current, 24int,
    {
        let arg = self.expression()?;
        let mut all = done;
        all.push(arg);
        assert(all@.drop_last() =~= done@);
        assert(exprs_view(all@) == exprs_view(done@).push(arg@));
        proof {
            crate::ast::lemma_exprs_view_len(all@);
        }
        if all.len() > 255 {
            let token = self.peek();
            self.error_reporter.error_at_token(&token, "Too many arguments in function call.");
        }
        if self.check(TokenType::Comma) {
            self.advance();
            self.call_arguments(all)
        } else {
            Ok(all)
        }
    }

    #[verifier::rlimit(50)]
    fn primary(&mut self) -> (r: Result<Expr, ParseError>)
        requires
            old(self).wf(),
        ensures
            final(self).follows(
                *old(self),
                expr_result(r),
                parse_primary(old(self).tokens@, old(self).current as int, old(self).error_reporter.diags()),
            ),
            r is Ok ==> final(self).current > old(self).current,
        decreases old(self).tokens@.len() - old(self).current, 2int,
    {
        let token = self.peek();
        if self.check(TokenType::False) {
            self.advance();
            Ok(Expr::Literal(Object::Boolean(false)))
        } else if self.check(TokenType::True) {
            self.advance();
            Ok(Expr::Literal(Object::Boolean(true)))
        } else if self.check(TokenType::Nil) {
            self.advance();
            Ok(Expr::Literal(Object::Nil))
        } else if self.check(TokenType::Number) || self.check(TokenType::String) {
            self.advance();
            match token.literal {
                Some(value) => Ok(Expr::Literal(value)),
                // not reached: well-formed number and string tokens carry a literal
                None => Ok(Expr::Literal(Object::Nil)),
            }
        } else if self.check(TokenType::Identifier) {
            self.advance();
            Ok(Expr::Variable(token))
        } else if self.check(TokenType::LeftParen) {
            self.advance();
            let expr = self.expression()?;
            self.consume(TokenType::RightParen, "Expect ')' after expression.")?;
            Ok(Expr::Grouping(Box::new(expr)))
        } else {
            self.error_reporter.error_at_token(&token, "Expect expression.");
            Err(ParseError)
        }
    }

    /// Parses the whole token sequence from the cursor: every declaration up
    /// to the end of input. A syntax error is reported once, and parsing goes
    /// on after the next statement boundary.
    #[verifier::rlimit(50)]
    pub fn parse(&mut self) -> (r: Vec<Stmt>)
        requires
            old(self).wf(),
        ensures
            final(self).wf(),
            final(self).token_seq() == old(self).token_seq(),
            stmts_view(r@) == parse_program(
                old(self).token_seq(),
                old(self).position(),
                old(self).reporter().diags(),
            ).0,
            final(self).reporter().diags() == parse_program(
                old(self).token_seq(),
                old(self).position(),
                old(self).reporter().diags(),
            ).1,
            final(self).reporter().had_error == (final(self).reporter().diags().len() > 0),
            final(self).reporter().had_runtime_error == old(self).reporter().had_runtime_error,
            final(self).reporter().runtime_errors == old(self).reporter().runtime_errors,
    {
        let ghost t = self.tokens@;
        let ghost p0 = self.current as int;
        let ghost log0 = self.error_reporter.diags();
        let mut statements: Vec<Stmt> = Vec::new();
        assert(stmts_view(statements@) =~= Seq::<StmtView>::empty());
        while !self.is_at_end()
            invariant
                self.wf(),
                self.tokens@ == t,
                self.error_reporter.had_runtime_error == old(self).error_reporter.had_runtime_error,
                self.error_reporter.runtime_errors == old(self).error_reporter.runtime_errors,
                parse_program(t, p0, log0).0 == stmts_view(statements@) + parse_program(
                    t,
                    self.current as int,
                    self.error_reporter.diags(),
                ).0,
                parse_program(t, p0, log0).1 == parse_program(
                    t,
                    self.current as int,
                    self.error_reporter.diags(),
                ).1,
            decreases t.len() - self.current,
        {
            let ghost p = self.current as int;
            let ghost before = stmts_view(statements@);
            let ghost sd_log = self.error_reporter.diags();
            let ghost sd = parse_declaration(t, p, sd_log);
            let d = self.declaration();
            let ghost rest = parse_program(t, self.current as int, self.error_reporter.diags());
            proof {
                lemma_program_step(t, p, sd_log);
            }
            match d {
                Some(s) => {
                    let ghost prev = statements@;
                    statements.push(s);
                    assert(statements@.drop_last() =~= prev);
                },
                None => {},
            }
            assert(stmts_view(statements@) =~= before + option_seq(sd.value->0));
            assert(before + (option_seq(sd.value->0) + rest.0) =~= before + option_seq(
                sd.value->0,
            ) + rest.0);
        }
        assert(stmts_view(statements@) + Seq::<StmtView>::empty() =~= stmts_view(statements@));
        statements
    }

    /// Discards tokens up to a statement boundary after a syntax error.
    fn synchronize(&mut self)
        requires
            old(self).wf(),
        ensures
            final(self).wf(),
            final(self).tokens == old(self).tokens,
            final(self).error_reporter == old(self).error_reporter,
            final(self).current == synchronize(old(self).tokens@, old(self).current as int),
            final(self).current >= old(self).current,
            !at_end(old(self).tokens@, old(self).current as int) ==> final(self).current
                > old(self).current,
    {
        if self.is_at_end() {
            return;
        }
        self.advance();
        let ghost t = self.tokens@;
        let ghost start = self.current as int;
        assert(synchronize(t, old(self).current as int) == sync_from(t, start));
        while !self.is_at_end()
            invariant
                self.wf(),
                start == old(self).current + 1,
                synchronize(t, old(self).current as int) == sync_from(t, start),
                self.tokens@ == t,
                self.tokens == old(self).tokens,
                self.error_reporter == old(self).error_reporter,
                0 < start <= self.current,
                sync_from(t, self.current as int) == sync_from(t, start),
            decreases t.len() - self.current,
        {
            if self.tokens[self.current - 1].token_type == TokenType::Semicolon {
                return;
            }
            match self.tokens[self.current].token_type {
                TokenType::Class
                | TokenType::For
                | TokenType::Fun
                | TokenType::If
                | TokenType::Print
                | TokenType::Return
                | TokenType::Var
                | TokenType::While => {
                    return;
                },
                _ => {},
            }
            self.advance();
        }
    }

    fn declaration(&mut self) -> (r: Option<Stmt>)
        requires
            old(self).wf(),
        ensures
            final(self).follows(
                *old(self),
                Some(
                    match r {
                        Some(s) => Some(s@),
                        None => None,
                    },
                ),
                parse_declaration(old(self).tokens@, old(self).current as int, old(self).error_reporter.diags()),
            ),
            !at_end(old(self).tokens@, old(self).current as int) ==> final(self).current
                > old(self).current,
        decreases old(self).tokens@.len() - old(self).current, 30int,
    {
        let result = if self.check(TokenType::Var) {
            self.advance();
            self.var_declaration()
        } else {
            self.statement()
        };
        match result {
            Ok(stmt) => Some(stmt),
            Err(_) => {
                self.synchronize();
                None
            },
        }
    }

    fn statement(&mut self) -> (r: Result<Stmt, ParseError>)
        requires
            old(self).wf(),
        ensures
            final(self).follows(
                *old(self),
                stmt_result(r),
                parse_statement(old(self).tokens@, old(self).current as int, old(self).error_reporter.diags()),
            ),
            r is Ok ==> final(self).current > old(self).current,
        decreases old(self).tokens@.len() - old(self).current, 29int,
    {
        if self.check(TokenType::Print) {
            self.advance();
            self.print_statement()
        } else if self.check(TokenType::LeftBrace) {
            self.advance();
            let items = self.block()?;
            Ok(Stmt::Block(items))
        } else if self.check(TokenType::If) {
            self.advance();
            self.if_statement()
        } else if self.check(TokenType::While) {
            self.advance();
            self.while_statement()
        } else if self.check(TokenType::For) {
            self.advance();
            self.for_statement()
        } else {
            self.expression_statement()
        }
    }

    fn print_statement(&mut self) -> (r: Result<Stmt, ParseError>)
        requires
            old(self).wf(),
        ensures
            final(self).follows(
                *old(self),
                stmt_result(r),
                parse_print_statement(old(self).tokens@, old(self).current as int, old(self).error_reporter.diags()),
            ),
            r is Ok ==> final(self).current > old(self).current,
        decreases old(self).tokens@.len() - old(self).current, 27int,
    {
        let value = self.expression()?;
        self.consume(TokenType::Semicolon, "Expect ';' after value.")?;
        Ok(Stmt::Print(Box::new(value)))
    }

    fn expression_statement(&mut self) -> (r: Result<Stmt, ParseError>)
        requires
            old(self).wf(),
        ensures
            final(self).follows(
                *old(self),
                stmt_result(r),
                parse_expression_statement(old(self).tokens@, old(self).current as int, old(self).error_reporter.diags()),
            ),
            r is Ok ==> final(self).current > old(self).current,
        decreases old(self).tokens@.len() - old(self).current, 27int,
    {
        let expr = self.expression()?;
        self.consume(TokenType::Semicolon, "Expect ';' after value.")?;
        Ok(Stmt::Expression(Box::new(expr)))
    }

    #[verifier::rlimit(50)]
    fn var_declaration(&mut self) -> (r: Result<Stmt, ParseError>)
        requires
            old(self).wf(),
        ensures
            final(self).follows(
                *old(self),
                stmt_result(r),
                parse_var_declaration(old(self).tokens@, old(self).current as int, old(self).error_reporter.diags()),
            ),
            r is Ok ==> final(self).current > old(self).current,
        decreases old(self).tokens@.len() - old(self).current, 27int,
    {
        let name = self.consume(TokenType::Identifier, "Expect variable name.")?;
        let initializer = if self.check(TokenType::Equal) {
            self.advance();
            Some(Box::new(self.expression()?))
        } else {
            None
        };
        self.consume(TokenType::Semicolon, "Expect ';' after variable declaration.")?;
        Ok(Stmt::Var(name, initializer))
    }

    fn while_statement(&mut self) -> (r: Result<Stmt, ParseError>)
        requires
            old(self).wf(),
        ensures
            final(self).follows(
                *old(self),
                stmt_result(r),
                parse_while_statement(old(self).tokens@, old(self).current as int, old(self).error_reporter.diags()),
            ),
            r is Ok ==> final(self).current > old(self).current,
        decreases old(self).tokens@.len() - old(self).current, 27int,
    {
        self.consume(TokenType::LeftParen, "Expect '(' after 'while'.")?;
        let condition = self.expression()?;
        self.consume(TokenType::RightParen, "Expect ')' after condition.")?;
        let body = self.statement()?;
        Ok(Stmt::While(Box::new(condition), Box::new(body)))
    }

    fn if_statement(&mut self) -> (r: Result<Stmt, ParseError>)
        requires
            old(self).wf(),
        ensures
            final(self).follows(
                *old(self),
                stmt_result(r),
                parse_if_statement(old(self).tokens@, old(self).current as int, old(self).error_reporter.diags()),
            ),
            r is Ok ==> final(self).current > old(self).current,
        decreases old(self).tokens@.len() - old(self).current, 27int,
    {
        self.consume(TokenType::LeftParen, "Expect '(' after 'if'.")?;
        let condition = self.expression()?;
        self.consume(TokenType::RightParen, "Expect ')' after if condition.")?;
        let then_branch = self.statement()?;
        let else_branch = if self.check(TokenType::Else) {
            self.advance();
            Some(Box::new(self.statement()?))
        } else {
            None
        };
        Ok(Stmt::If(Box::new(condition), Box::new(then_branch), else_branch))
    }

    fn for_statement(&mut self) -> (r: Result<Stmt, ParseError>)
        requires
            old(self).wf(),
        ensures
            final(self).follows(
                *old(self),
                stmt_result(r),
                parse_for_statement(old(self).tokens@, old(self).current as int, old(self).error_reporter.diags()),
            ),
            r is Ok ==> final(self).current > old(self).current,
        decreases old(self).tokens@.len() - old(self).current, 27int,
    {
        self.consume(TokenType::LeftParen, "Expect '(' after 'for'.")?;
        let initializer = self.for_initializer()?;
        self.for_condition(initializer)
    }

    fn for_initializer(&mut self) -> (r: Result<Option<Stmt>, ParseError>)
        requires
            old(self).wf(),
        ensures
            final(self).follows(
                *old(self),
                match r {
                    Ok(Some(s)) => Some(Some(s@)),
                    Ok(None) => Some(None),
                    Err(_) => None,
                },
                for_initializer(old(self).tokens@, old(self).current as int, old(self).error_reporter.diags()),
            ),
            r is Ok ==> final(self).current > old(self).current,
        decreases old(self).tokens@.len() - old(self).current, 28int,
    {
        if self.check(TokenType::Semicolon) {
            self.advance();
            Ok(None)
        } else if self.check(TokenType::Var) {
            self.advance();
            Ok(Some(self.var_declaration()?))
        } else {
            Ok(Some(self.expression_statement()?))
        }
    }

    fn for_condition(&mut self, initializer: Option<Stmt>) -> (r: Result<Stmt, ParseError>)
        requires
            old(self).wf(),
        ensures
            final(self).follows(
                *old(self),
                stmt_result(r),
                for_condition(
                    old(self).tokens@,
                    old(self).current as int,
                    match initializer {
                        Some(s) => Some(s@),
                        None => None,
                    },
                    old(self).error_reporter.diags(),
                ),
            ),
            r is Ok ==> final(self).current > old(self).current,
        decreases old(self).tokens@.len() - old(self).current, 28int,
    {
        let condition = if !self.check(TokenType::Semicolon) {
            Some(self.expression()?)
        } else {
            None
        };
        self.consume(TokenType::Semicolon, "Expect ';' after loop condition.")?;
        self.for_increment(initializer, condition)
    }

    fn for_increment(&mut self, initializer: Option<Stmt>, condition: Option<Expr>) -> (r: Result<
        Stmt,
        ParseError,
    >)
        requires
            old(self).wf(),
        ensures
            final(self).follows(
                *old(self),
                stmt_result(r),
                for_increment(
                    old(self).tokens@,
                    old(self).current as int,
                    match initializer {
                        Some(s) => Some(s@),
                        None => None,
                    },
                    match condition {
                        Some(c) => Some(c@),
                        None => None,
                    },
                    old(self).error_reporter.diags(),
                ),
            ),
            r is Ok ==> final(self).current > old(self).current,
        decreases old(self).tokens@.len() - old(self).current, 28int,
    {
        let increment = if !self.check(TokenType::RightParen) {
            Some(self.expression()?)
        } else {
            None
        };
        self.consume(TokenType::RightParen, "Expect ')' after for clauses.")?;
        let body = self.statement()?;
        Ok(desugar_for(initializer, condition, increment, body))
    }

    fn block(&mut self) -> (r: Result<Vec<Stmt>, ParseError>)
        requires
            old(self).wf(),
        ensures
            final(self).follows(
                *old(self),
                match r {
                    Ok(items) => Some(stmts_view(items@)),
                    Err(_) => None,
                },
                parse_block(old(self).tokens@, old(self).current as int, old(self).error_reporter.diags()),
            ),
            r is Ok ==> final(self).current > old(self).current,
        decreases old(self).tokens@.len() - old(self).current, 32int,
    {
        let statements = self.block_items();
        self.consume(TokenType::RightBrace, "Expect '}' after block.")?;
        Ok(statements)
    }

    #[verifier::rlimit(50)]
    fn block_items(&mut self) -> (r: Vec<Stmt>)
        requires
            old(self).wf(),
        ensures
            final(self).follows(
                *old(self),
                Some(stmts_view(r@)),
                block_items(old(self).tokens@, old(self).current as int, old(self).error_reporter.diags()),
            ),
        decreases old(self).tokens@.len() - old(self).current, 31int,
    {
        let ghost t = self.tokens@;
        let ghost p0 = self.current as int;
        let ghost log0 = self.error_reporter.diags();
        let mut statements: Vec<Stmt> = Vec::new();
        assert(stmts_view(statements@) =~= Seq::<StmtView>::empty());
        while !self.check(TokenType::RightBrace) && !self.is_at_end()
            invariant
                self.wf(),
                self.tokens@ == t,
                t == old(self).tokens@,
                p0 == old(self).current,
                p0 <= self.current,
                self.error_reporter.had_runtime_error == old(self).error_reporter.had_runtime_error,
                self.error_reporter.runtime_errors == old(self).error_reporter.runtime_errors,
                block_items(t, p0, log0).value->0 == stmts_view(statements@) + block_items(
                    t,
                    self.current as int,
                    self.error_reporter.diags(),
                ).value->0,
                block_items(t, p0, log0).pos == block_items(t, self.current as int, self.error_reporter.diags()).pos,
                block_items(t, p0, log0).diags == block_items(t, self.current as int, self.error_reporter.diags()).diags,
            decreases t.len() - self.current,
        {
            let ghost p = self.current as int;
            let ghost before = stmts_view(statements@);
            let ghost sd_log = self.error_reporter.diags();
            let ghost sd = parse_declaration(t, p, sd_log);
            let d = self.declaration();
            let ghost rest = block_items(t, self.current as int, self.error_reporter.diags());
            proof {
                lemma_block_items_some(t, self.current as int, self.error_reporter.diags());
            }
            proof {
                lemma_block_items_step(t, p, sd_log);
            }
            match d {
                Some(s) => {
                    let ghost prev = statements@;
                    statements.push(s);
                    assert(statements@.drop_last() =~= prev);
                },
                None => {},
            }
            assert(stmts_view(statements@) =~= before + option_seq(sd.value->0));
            assert(before + (option_seq(sd.value->0) + rest.value->0) =~= before + option_seq(
                sd.value->0,
            ) + rest.value->0);
        }
        assert(stmts_view(statements@) + Seq::<StmtView>::empty() =~= stmts_view(statements@));
        statements
    }
}

/// Builds the loop that a `for` statement stands for.
fn desugar_for(
    initializer: Option<Stmt>,
    condition: Option<Expr>,
    increment: Option<Expr>,
    body: Stmt,
) -> (r: Stmt)
    ensures
        r@ == desugared_for(
            match initializer {
                Some(s) => Some(s@),
                None => None,
            },
            match condition {
                Some(c) => Some(c@),
                None => None,
            },
            match increment {
                Some(i) => Some(i@),
                None => None,
            },
            body@,
        ),
{
    let ghost b = body@;
    let looped = match increment {
        Some(increment) => {
            let e = Stmt::Expression(Box::new(increment));
            let items = pair(body, e);
            assert(stmt_view(Stmt::Block(items)) == StmtView::Block(stmts_view(items@)));
            Stmt::Block(items)
        },
        None => body,
    };
    let test = match condition {
        Some(condition) => condition,
        None => Expr::Literal(Object::Boolean(true)),
    };
    let w = Stmt::While(Box::new(test), Box::new(looped));
    match initializer {
        Some(initializer) => {
            let items = pair(initializer, w);
            assert(stmt_view(Stmt::Block(items)) == StmtView::Block(stmts_view(items@)));
            Stmt::Block(items)
        },
        None => w,
    }
}

/// A two-statement list.
fn pair(first: Stmt, second: Stmt) -> (r: Vec<Stmt>)
    ensures
        stmts_view(r@) == seq![first@, second@],
{
    let mut v: Vec<Stmt> = Vec::new();
    v.push(first);
    let ghost one = v@;
    v.push(second);
    assert(v@.drop_last() =~= one);
    assert(one.drop_last() =~= Seq::<Stmt>::empty());
    assert(stmts_view(Seq::<Stmt>::empty()) =~= Seq::<StmtView>::empty());
    assert(stmts_view(one) == stmts_view(one.drop_last()).push(stmt_view(one.last())));
    assert(stmts_view(v@) == stmts_view(one).push(stmt_view(second)));
    assert(stmts_view(v@) =~= seq![first@, second@]);
    v
}

} // verus!
