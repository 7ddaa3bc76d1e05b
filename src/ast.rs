use crate::tokens::{object_text, token_text, Object, Token};
use vstd::prelude::*;
use vstd::string::StringExecFns;

verus! {

broadcast use vstd::std_specs::vec::axiom_vec_decreases_to_view;

/// An expression node. Each node owns its children.
#[derive(Debug, PartialEq)]
pub enum Expr {
    Unary(Token, Box<Expr>),
    Binary(Box<Expr>, Token, Box<Expr>),
    Call(Box<Expr>, Token, Vec<Expr>),
    Grouping(Box<Expr>),
    Literal(Object),
    Variable(Token),
    Assignment(Token, Box<Expr>),
    Logical(Box<Expr>, Token, Box<Expr>),
}

/// A statement node.
#[derive(Debug, PartialEq)]
pub enum Stmt {
    Print(Box<Expr>),
    Block(Vec<Stmt>),
    Expression(Box<Expr>),
    If(Box<Expr>, Box<Stmt>, Option<Box<Stmt>>),
    Var(Token, Option<Box<Expr>>),
    While(Box<Expr>, Box<Stmt>),
}

/// Mathematical model of an expression tree: the same tree, with sequences
/// for argument lists.
pub enum ExprView {
    Unary(Token, Box<ExprView>),
    Binary(Box<ExprView>, Token, Box<ExprView>),
    Call(Box<ExprView>, Token, Seq<ExprView>),
    Grouping(Box<ExprView>),
    Literal(Object),
    Variable(Token),
    Assignment(Token, Box<ExprView>),
    Logical(Box<ExprView>, Token, Box<ExprView>),
}

/// Mathematical model of a statement tree.
pub enum StmtView {
    Print(ExprView),
    Block(Seq<StmtView>),
    Expression(ExprView),
    If(ExprView, Box<StmtView>, Option<Box<StmtView>>),
    Var(Token, Option<ExprView>),
    While(ExprView, Box<StmtView>),
}

pub open spec fn expr_view(e: Expr) -> ExprView
    decreases e,
{
    match e {
        Expr::Unary(op, r) => ExprView::Unary(op, Box::new(expr_view(*r))),
        Expr::Binary(l, op, r) => ExprView::Binary(
            Box::new(expr_view(*l)),
            op,
            Box::new(expr_view(*r)),
        ),
        Expr::Call(c, paren, args) => ExprView::Call(
            Box::new(expr_view(*c)),
            paren,
            exprs_view(args@),
        ),
        Expr::Grouping(inner) => ExprView::Grouping(Box::new(expr_view(*inner))),
        Expr::Literal(o) => ExprView::Literal(o),
        Expr::Variable(name) => ExprView::Variable(name),
        Expr::Assignment(name, v) => ExprView::Assignment(name, Box::new(expr_view(*v))),
        Expr::Logical(l, op, r) => ExprView::Logical(
            Box::new(expr_view(*l)),
            op,
            Box::new(expr_view(*r)),
        ),
    }
}

pub open spec fn exprs_view(s: Seq<Expr>) -> Seq<ExprView>
    decreases s,
{
    if s.len() == 0 {
        Seq::empty()
    } else {
        exprs_view(s.drop_last()).push(expr_view(s.last()))
    }
}

pub proof fn lemma_exprs_view_len(s: Seq<Expr>)
    ensures
        exprs_view(s).len() == s.len(),
    decreases s.len(),
{
    if s.len() > 0 {
        lemma_exprs_view_len(s.drop_last());
    }
}

pub proof fn lemma_stmts_view_index(s: Seq<Stmt>)
    ensures
        stmts_view(s).len() == s.len(),
        forall|i: int| 0 <= i < s.len() ==> #[trigger] stmts_view(s)[i] == stmt_view(s[i]),
    decreases s.len(),
{
    if s.len() > 0 {
        lemma_stmts_view_index(s.drop_last());
        assert forall|i: int| 0 <= i < s.len() implies #[trigger] stmts_view(s)[i] == stmt_view(
            s[i],
        ) by {
            if i < s.len() - 1 {
                assert(s.drop_last()[i] == s[i]);
            }
        }
    }
}

pub open spec fn stmt_view(s: Stmt) -> StmtView
    decreases s,
{
    match s {
        Stmt::Print(e) => StmtView::Print(expr_view(*e)),
        Stmt::Block(items) => StmtView::Block(stmts_view(items@)),
        Stmt::Expression(e) => StmtView::Expression(expr_view(*e)),
        Stmt::If(c, t, e) => StmtView::If(
            expr_view(*c),
            Box::new(stmt_view(*t)),
            match e {
                Some(b) => Some(Box::new(stmt_view(*b))),
                None => None,
            },
        ),
        Stmt::Var(name, init) => StmtView::Var(
            name,
            match init {
                Some(e) => Some(expr_view(*e)),
                None => None,
            },
        ),
        Stmt::While(c, body) => StmtView::While(expr_view(*c), Box::new(stmt_view(*body))),
    }
}

pub open spec fn stmts_view(s: Seq<Stmt>) -> Seq<StmtView>
    decreases s,
{
    if s.len() == 0 {
        Seq::empty()
    } else {
        stmts_view(s.drop_last()).push(stmt_view(s.last()))
    }
}

/// The parenthesized prefix form of an expression: `(op left right)` for
/// operators, `(group e)` for groupings, literals in their display form.
pub open spec fn expr_text(e: ExprView) -> Seq<char>
    decreases e,
{
    match e {
        ExprView::Binary(l, op, r) => "("@ + op.lexeme@ + " "@ + expr_text(*l) + " "@ + expr_text(*r)
            + ")"@,
        ExprView::Grouping(x) => "(group "@ + expr_text(*x) + ")"@,
        ExprView::Literal(v) => object_text(v),
        ExprView::Unary(op, r) => "("@ + op.lexeme@ + " "@ + expr_text(*r) + ")"@,
        ExprView::Variable(t) => t.lexeme@,
        ExprView::Assignment(t, v) => t.lexeme@ + " = "@ + expr_text(*v),
        ExprView::Logical(l, op, r) => "("@ + op.lexeme@ + " "@ + expr_text(*l) + " "@ + expr_text(
            *r,
        ) + ")"@,
        ExprView::Call(c, paren, args) => expr_text(*c) + token_text(paren) + "(call"@ + args_text(
            args,
        ) + ")"@,
    }
}

/// Each argument's text, each after a space.
pub open spec fn args_text(args: Seq<ExprView>) -> Seq<char>
    decreases args,
{
    if args.len() == 0 {
        Seq::empty()
    } else {
        args_text(args.drop_last()) + " "@ + expr_text(args.last())
    }
}

impl Expr {
    /// The parenthesized prefix form of the expression.
    #[verifier::loop_isolation(false)]
    pub fn to_string(&self) -> (r: String)
        ensures
            r@ == expr_text(self@),
        decreases self,
    {
        match self {
            Expr::Binary(l, op, r) => pair_text(&op.lexeme, l.to_string(), r.to_string()),
            Expr::Logical(l, op, r) => pair_text(&op.lexeme, l.to_string(), r.to_string()),
            Expr::Grouping(x) => {
                let mut out = "(group ".to_owned();
                out.append(x.to_string().as_str());
                out.append(")");
                out
            },
            Expr::Literal(v) => v.to_string(),
            Expr::Unary(op, r) => {
                let mut out = "(".to_owned();
                out.append(op.lexeme.as_str());
                out.append(" ");
                out.append(r.to_string().as_str());
                out.append(")");
                out
            },
            Expr::Variable(t) => t.lexeme.clone(),
            Expr::Assignment(t, v) => {
                let mut out = t.lexeme.clone();
                out.append(" = ");
                out.append(v.to_string().as_str());
                out
            },
            Expr::Call(callee, paren, args) => {
                let mut out = callee.to_string();
                out.append(paren.to_string().as_str());
                out.append("(call");
                let ghost start = out@;
                let mut i: usize = 0;
                assert(exprs_view(args@.subrange(0, 0)) =~= Seq::<ExprView>::empty());
                while i < args.len()
                    invariant
                        i <= args@.len(),
                        out@ == start + args_text(exprs_view(args@.subrange(0, i as int))),
                    decreases args@.len() - i,
                {
                    proof {
                        assert(decreases_to!(*self => *args));
                        assert(decreases_to!(*args => args@));
                        assert(decreases_to!(args@ => args@[i as int]));
                    }
                    let text = args[i].to_string();
                    let ghost before = args@.subrange(0, i as int);
                    out.append(" ");
                    out.append(text.as_str());
                    i = i + 1;
                    assert(args@.subrange(0, i as int).drop_last() =~= before);
                    assert(exprs_view(args@.subrange(0, i as int)) == exprs_view(before).push(
                        args@[i - 1]@,
                    ));
                    assert(exprs_view(before).push(args@[i - 1]@).drop_last() =~= exprs_view(before));
                    assert(args_text(exprs_view(args@.subrange(0, i as int))) == args_text(
                        exprs_view(before),
                    ) + " "@ + expr_text(args@[i - 1]@));
                    assert(out@ =~= start + args_text(exprs_view(args@.subrange(0, i as int))));
                }
                assert(args@.subrange(0, args@.len() as int) =~= args@);
                out.append(")");
                out
            },
        }
    }
}

/// `(op left right)`.
fn pair_text(op: &String, left: String, right: String) -> (r: String)
    ensures
        r@ == "("@ + op@ + " "@ + left@ + " "@ + right@ + ")"@,
{
    let mut out = "(".to_owned();
    out.append(op.as_str());
    out.append(" ");
    out.append(left.as_str());
    out.append(" ");
    out.append(right.as_str());
    out.append(")");
    out
}

impl View for Expr {
    type V = ExprView;

    open spec fn view(&self) -> ExprView {
        expr_view(*self)
    }
}

impl View for Stmt {
    type V = StmtView;

    open spec fn view(&self) -> StmtView {
        stmt_view(*self)
    }
}

} // verus!
