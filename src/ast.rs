use vstd::prelude::*;
use crate::number::{Number, number_text};
use crate::text::{chars_of, string_of};

verus! {

#[derive(Clone, Copy, Debug, PartialEq, Eq, Structural)]
pub enum Operator {
    Sub,
    Add,
    Mul,
    Div,
    NotEqual,
    Equal,
    Greater,
    GreaterEqual,
    Less,
    LessEqual,
    And,
    Or,
    Not,
    Negate,
}

impl Operator {
    /// The arithmetic and comparison operators, which take two operands.
    pub open spec fn spec_is_binary(self) -> bool {
        match self {
            Operator::Sub | Operator::Add | Operator::Mul | Operator::Div | Operator::NotEqual
            | Operator::Equal | Operator::Greater | Operator::GreaterEqual | Operator::Less
            | Operator::LessEqual => true,
            _ => false,
        }
    }

    pub fn is_binary_operator(&self) -> (r: bool)
        ensures
            r == self.spec_is_binary(),
    {
        match self {
            Operator::Sub | Operator::Add | Operator::Mul | Operator::Div | Operator::NotEqual
            | Operator::Equal | Operator::Greater | Operator::GreaterEqual | Operator::Less
            | Operator::LessEqual => true,
            _ => false,
        }
    }

    pub fn is_unary_operator(&self) -> (r: bool)
        ensures
            r == (*self == Operator::Not || *self == Operator::Negate),
    {
        match self {
            Operator::Not | Operator::Negate => true,
            _ => false,
        }
    }

    pub fn is_logical_operator(&self) -> (r: bool)
        ensures
            r == (*self == Operator::And || *self == Operator::Or),
    {
        match self {
            Operator::And | Operator::Or => true,
            _ => false,
        }
    }
}

#[derive(Debug, PartialEq)]
pub enum Expr {
    ENumb { value: Number },
    EStr { value: String },
    EBool { value: bool },
    ENil,
    EBinOp { op: Operator, left: Box<Expr>, right: Box<Expr> },
    EUnaryOp { op: Operator, operand: Box<Expr> },
    EGroup { expr: Box<Expr> },
    EVar { name: String },
    EAssign { name: String, expr: Box<Expr> },
    ELogicalOp { op: Operator, left: Box<Expr>, right: Box<Expr> },
    ECall { func: Box<Expr>, args: Vec<Expr> },
}

#[derive(Debug, PartialEq)]
pub enum Stmt {
    SPrint(Expr),
    SVar(String, Option<Expr>),
    SExpr(Expr),
    SFun(String, Vec<String>, Box<Stmt>),
    SReturn(Expr),
    SBlock(Vec<Stmt>),
    SIf(Expr, Box<Stmt>, Option<Box<Stmt>>),
    SWhile(Expr, Box<Stmt>),
    SEmpty,
}

/// An expression as a mathematical tree.
pub enum ExprV {
    Numb(Number),
    Str(Seq<char>),
    Bool(bool),
    Nil,
    BinOp(Operator, Box<ExprV>, Box<ExprV>),
    Unary(Operator, Box<ExprV>),
    Group(Box<ExprV>),
    Var(Seq<char>),
    Assign(Seq<char>, Box<ExprV>),
    Logical(Operator, Box<ExprV>, Box<ExprV>),
    Call(Box<ExprV>, Seq<ExprV>),
}

/// A statement as a mathematical tree.
pub enum StmtV {
    Print(ExprV),
    Var(Seq<char>, Option<ExprV>),
    Expr(ExprV),
    Fun(Seq<char>, Seq<Seq<char>>, Box<StmtV>),
    Return(ExprV),
    Block(Seq<StmtV>),
    If(ExprV, Box<StmtV>, Option<Box<StmtV>>),
    While(ExprV, Box<StmtV>),
    Empty,
}

pub open spec fn expr_view(e: Expr) -> ExprV
    decreases e,
{
    match e {
        Expr::ENumb { value } => ExprV::Numb(value),
        Expr::EStr { value } => ExprV::Str(value@),
        Expr::EBool { value } => ExprV::Bool(value),
        Expr::ENil => ExprV::Nil,
        Expr::EBinOp { op, left, right } => ExprV::BinOp(
            op,
            Box::new(expr_view(*left)),
            Box::new(expr_view(*right)),
        ),
        Expr::EUnaryOp { op, operand } => ExprV::Unary(op, Box::new(expr_view(*operand))),
        Expr::EGroup { expr } => ExprV::Group(Box::new(expr_view(*expr))),
        Expr::EVar { name } => ExprV::Var(name@),
        Expr::EAssign { name, expr } => ExprV::Assign(name@, Box::new(expr_view(*expr))),
        Expr::ELogicalOp { op, left, right } => ExprV::Logical(
            op,
            Box::new(expr_view(*left)),
            Box::new(expr_view(*right)),
        ),
        Expr::ECall { func, args } => ExprV::Call(Box::new(expr_view(*func)), exprs_view(args@)),
    }
}

pub open spec fn exprs_view(es: Seq<Expr>) -> Seq<ExprV>
    decreases es,
{
    if es.len() == 0 {
        seq![]
    } else {
        exprs_view(es.drop_last()).push(expr_view(es.last()))
    }
}

pub open spec fn names_view(ns: Seq<String>) -> Seq<Seq<char>> {
    ns.map_values(|n: String| n@)
}

pub open spec fn stmt_view(s: Stmt) -> StmtV
    decreases s,
{
    match s {
        Stmt::SPrint(e) => StmtV::Print(expr_view(e)),
        Stmt::SVar(n, init) => StmtV::Var(
            n@,
            match init {
                Some(e) => Some(expr_view(e)),
                None => None,
            },
        ),
        Stmt::SExpr(e) => StmtV::Expr(expr_view(e)),
        Stmt::SFun(n, ps, body) => StmtV::Fun(n@, names_view(ps@), Box::new(stmt_view(*body))),
        Stmt::SReturn(e) => StmtV::Return(expr_view(e)),
        Stmt::SBlock(ss) => StmtV::Block(stmts_view(ss@)),
        Stmt::SIf(c, t, el) => StmtV::If(
            expr_view(c),
            Box::new(stmt_view(*t)),
            match el {
                Some(b) => Some(Box::new(stmt_view(*b))),
                None => None,
            },
        ),
        Stmt::SWhile(c, b) => StmtV::While(expr_view(c), Box::new(stmt_view(*b))),
        Stmt::SEmpty => StmtV::Empty,
    }
}

pub open spec fn stmts_view(ss: Seq<Stmt>) -> Seq<StmtV>
    decreases ss,
{
    if ss.len() == 0 {
        seq![]
    } else {
        stmts_view(ss.drop_last()).push(stmt_view(ss.last()))
    }
}

impl View for Expr {
    type V = ExprV;

    open spec fn view(&self) -> ExprV {
        expr_view(*self)
    }
}

impl View for Stmt {
    type V = StmtV;

    open spec fn view(&self) -> StmtV {
        stmt_view(*self)
    }
}

pub proof fn lemma_exprs_view_push(es: Seq<Expr>, e: Expr)
    ensures
        exprs_view(es.push(e)) == exprs_view(es).push(expr_view(e)),
{
    assert(es.push(e).drop_last() =~= es);
}

pub proof fn lemma_stmts_view_push(ss: Seq<Stmt>, s: Stmt)
    ensures
        stmts_view(ss.push(s)) == stmts_view(ss).push(stmt_view(s)),
{
    assert(ss.push(s).drop_last() =~= ss);
}

/// A copy of an expression.
pub fn copy_expr(e: &Expr) -> (r: Expr)
    ensures
        r@ == e@,
    decreases e, 0int,
{
    match e {
        Expr::ENumb { value } => Expr::ENumb { value: *value },
        Expr::EStr { value } => Expr::EStr { value: value.clone() },
        Expr::EBool { value } => Expr::EBool { value: *value },
        Expr::ENil => Expr::ENil,
        Expr::EBinOp { op, left, right } => Expr::EBinOp {
            op: *op,
            left: Box::new(copy_expr(left)),
            right: Box::new(copy_expr(right)),
        },
        Expr::EUnaryOp { op, operand } => Expr::EUnaryOp {
            op: *op,
            operand: Box::new(copy_expr(operand)),
        },
        Expr::EGroup { expr } => Expr::EGroup { expr: Box::new(copy_expr(expr)) },
        Expr::EVar { name } => Expr::EVar { name: name.clone() },
        Expr::EAssign { name, expr } => Expr::EAssign {
            name: name.clone(),
            expr: Box::new(copy_expr(expr)),
        },
        Expr::ELogicalOp { op, left, right } => Expr::ELogicalOp {
            op: *op,
            left: Box::new(copy_expr(left)),
            right: Box::new(copy_expr(right)),
        },
        Expr::ECall { func, args } => Expr::ECall {
            func: Box::new(copy_expr(func)),
            args: copy_exprs(args),
        },
    }
}

/// A copy of a list of expressions.
pub fn copy_exprs(es: &Vec<Expr>) -> (r: Vec<Expr>)
    ensures
        exprs_view(r@) == exprs_view(es@),
    decreases es, 0int,
{
    let mut v: Vec<Expr> = Vec::new();
    let mut i: usize = 0;
    assert(es@.take(0) =~= Seq::<Expr>::empty());
    assert(v@ =~= Seq::<Expr>::empty());
    while i < es.len()
        invariant
            i <= es.len(),
            exprs_view(v@) == exprs_view(es@.take(i as int)),
        decreases es.len() - i,
    {
        proof {
            vstd::std_specs::vec::axiom_vec_index_decreases(*es, i as int);
        }
        let c = copy_expr(&es[i]);
        proof {
            lemma_exprs_view_push(v@, c);
            assert(es@.take(i + 1).drop_last() =~= es@.take(i as int));
        }
        v.push(c);
        i = i + 1;
    }
    assert(es@.take(es.len() as int) =~= es@);
    v
}

/// A copy of a list of names.
pub fn copy_names(ns: &Vec<String>) -> (r: Vec<String>)
    ensures
        names_view(r@) == names_view(ns@),
{
    let mut v: Vec<String> = Vec::new();
    let mut i: usize = 0;
    while i < ns.len()
        invariant
            i <= ns.len(),
            v@.len() == i,
            names_view(v@) == names_view(ns@.take(i as int)),
        decreases ns.len() - i,
    {
        let ghost before = names_view(v@);
        let n = ns[i].clone();
        v.push(n);
        assert(names_view(v@) =~= before.push(n@));
        i = i + 1;
        assert(names_view(v@) =~= names_view(ns@.take(i as int)));
    }
    assert(ns@.take(ns.len() as int) =~= ns@);
    v
}

/// A copy of a statement.
pub fn copy_stmt(st: &Stmt) -> (r: Stmt)
    ensures
        r@ == st@,
    decreases st, 0int,
{
    match st {
        Stmt::SPrint(e) => Stmt::SPrint(copy_expr(e)),
        Stmt::SVar(n, init) => Stmt::SVar(
            n.clone(),
            match init {
                Some(e) => Some(copy_expr(e)),
                None => None,
            },
        ),
        Stmt::SExpr(e) => Stmt::SExpr(copy_expr(e)),
        Stmt::SFun(n, ps, body) => Stmt::SFun(n.clone(), copy_names(ps), Box::new(copy_stmt(body))),
        Stmt::SReturn(e) => Stmt::SReturn(copy_expr(e)),
        Stmt::SBlock(ss) => Stmt::SBlock(copy_stmts(ss)),
        Stmt::SIf(c, t, el) => Stmt::SIf(
            copy_expr(c),
            Box::new(copy_stmt(t)),
            match el {
                Some(b) => Some(Box::new(copy_stmt(b))),
                None => None,
            },
        ),
        Stmt::SWhile(c, b) => Stmt::SWhile(copy_expr(c), Box::new(copy_stmt(b))),
        Stmt::SEmpty => Stmt::SEmpty,
    }
}

/// A copy of a list of statements.
pub fn copy_stmts(ss: &Vec<Stmt>) -> (r: Vec<Stmt>)
    ensures
        stmts_view(r@) == stmts_view(ss@),
    decreases ss, 0int,
{
    let mut v: Vec<Stmt> = Vec::new();
    let mut i: usize = 0;
    assert(ss@.take(0) =~= Seq::<Stmt>::empty());
    assert(v@ =~= Seq::<Stmt>::empty());
    while i < ss.len()
        invariant
            i <= ss.len(),
            stmts_view(v@) == stmts_view(ss@.take(i as int)),
        decreases ss.len() - i,
    {
        proof {
            vstd::std_specs::vec::axiom_vec_index_decreases(*ss, i as int);
        }
        let c = copy_stmt(&ss[i]);
        proof {
            lemma_stmts_view_push(v@, c);
            assert(ss@.take(i + 1).drop_last() =~= ss@.take(i as int));
        }
        v.push(c);
        i = i + 1;
    }
    assert(ss@.take(ss.len() as int) =~= ss@);
    v
}

/// How an operator is written.
pub open spec fn op_text(op: Operator) -> Seq<char> {
    match op {
        Operator::Sub | Operator::Negate => "-"@,
        Operator::Add => "+"@,
        Operator::Mul => "*"@,
        Operator::Div => "/"@,
        Operator::NotEqual => "!="@,
        Operator::Equal => "=="@,
        Operator::Greater => ">"@,
        Operator::GreaterEqual => ">="@,
        Operator::Less => "<"@,
        Operator::LessEqual => "<="@,
        Operator::And => "and"@,
        Operator::Or => "or"@,
        Operator::Not => "!"@,
    }
}

impl Operator {
    /// How this operator is written.
    pub fn text(&self) -> (r: &'static str)
        ensures
            r@ == op_text(*self),
    {
        match self {
            Operator::Sub | Operator::Negate => "-",
            Operator::Add => "+",
            Operator::Mul => "*",
            Operator::Div => "/",
            Operator::NotEqual => "!=",
            Operator::Equal => "==",
            Operator::Greater => ">",
            Operator::GreaterEqual => ">=",
            Operator::Less => "<",
            Operator::LessEqual => "<=",
            Operator::And => "and",
            Operator::Or => "or",
            Operator::Not => "!",
        }
    }
}

/// A readable text of an expression: binary and logical operations in
/// parentheses, strings in quotes, variables marked `var`; a number that
/// breaks the representation's rules reads `NaN`.
pub open spec fn expr_text(e: ExprV) -> Seq<char>
    decreases e,
{
    match e {
        ExprV::Numb(n) => if n.wf() {
            number_text(n)
        } else {
            "NaN"@
        },
        ExprV::Str(s) => "\""@ + s + "\""@,
        ExprV::Bool(b) => if b {
            "true"@
        } else {
            "false"@
        },
        ExprV::Nil => "nil"@,
        ExprV::BinOp(op, l, r) => "("@ + expr_text(*l) + " "@ + op_text(op) + " "@ + expr_text(*r) + ")"@,
        ExprV::Unary(op, x) => op_text(op) + expr_text(*x),
        ExprV::Group(x) => "("@ + expr_text(*x) + ")"@,
        ExprV::Var(name) => "var "@ + name,
        ExprV::Assign(name, x) => name + " = "@ + expr_text(*x),
        ExprV::Logical(op, l, r) => "("@ + expr_text(*l) + " "@ + op_text(op) + " "@ + expr_text(*r) + ")"@,
        ExprV::Call(f, args) => expr_text(*f) + "("@ + args_text(args) + ")"@,
    }
}

/// Expressions separated by `, `.
pub open spec fn args_text(args: Seq<ExprV>) -> Seq<char>
    decreases args,
{
    if args.len() == 0 {
        seq![]
    } else if args.len() == 1 {
        expr_text(args[0])
    } else {
        args_text(args.drop_last()) + ", "@ + expr_text(args.last())
    }
}

pub(crate) fn push_str(out: &mut Vec<char>, s: &str)
    ensures
        final(out)@ == old(out)@ + s@,
{
    let v = chars_of(s);
    let mut i: usize = 0;
    while i < v.len()
        invariant
            i <= v.len(),
            v@ == s@,
            out@ == old(out)@ + v@.take(i as int),
        decreases v.len() - i,
    {
        out.push(v[i]);
        i = i + 1;
        assert(out@ =~= old(out)@ + v@.take(i as int));
    }
    assert(v@.take(v.len() as int) =~= v@);
}

fn push_text(out: &mut Vec<char>, s: &String)
    ensures
        final(out)@ == old(out)@ + s@,
{
    push_str(out, s.as_str());
}

fn push_expr_text(e: &Expr, out: &mut Vec<char>)
    ensures
        final(out)@ == old(out)@ + expr_text(e@),
    decreases e, 0int,
{
    let ghost start = out@;
    match e {
        Expr::ENumb { value } => {
            if value.is_wf() {
                let t = value.text();
                let mut i: usize = 0;
                while i < t.len()
                    invariant
                        i <= t.len(),
                        out@ == start + t@.take(i as int),
                    decreases t.len() - i,
                {
                    out.push(t[i]);
                    i = i + 1;
                    assert(out@ =~= start + t@.take(i as int));
                }
                assert(t@.take(t.len() as int) =~= t@);
            } else {
                push_str(out, "NaN");
            }
        },
        Expr::EStr { value } => {
            push_str(out, "\"");
            push_text(out, value);
            push_str(out, "\"");
        },
        Expr::EBool { value } => {
            if *value {
                push_str(out, "true");
            } else {
                push_str(out, "false");
            }
        },
        Expr::ENil => push_str(out, "nil"),
        Expr::EBinOp { op, left, right } | Expr::ELogicalOp { op, left, right } => {
            push_str(out, "(");
            push_expr_text(left, out);
            push_str(out, " ");
            push_str(out, op.text());
            push_str(out, " ");
            push_expr_text(right, out);
            push_str(out, ")");
        },
        Expr::EUnaryOp { op, operand } => {
            push_str(out, op.text());
            push_expr_text(operand, out);
        },
        Expr::EGroup { expr } => {
            push_str(out, "(");
            push_expr_text(expr, out);
            push_str(out, ")");
        },
        Expr::EVar { name } => {
            push_str(out, "var ");
            push_text(out, name);
        },
        Expr::EAssign { name, expr } => {
            push_text(out, name);
            push_str(out, " = ");
            push_expr_text(expr, out);
        },
        Expr::ECall { func, args } => {
            push_expr_text(func, out);
            push_str(out, "(");
            push_args_text(args, out);
            push_str(out, ")");
        },
    }
    assert(out@ =~= start + expr_text(e@));
}

fn push_args_text(args: &Vec<Expr>, out: &mut Vec<char>)
    ensures
        final(out)@ == old(out)@ + args_text(exprs_view(args@)),
    decreases args, 0int,
{
    let ghost start = out@;
    let mut i: usize = 0;
    assert(exprs_view(args@.take(0)) =~= seq![]);
    assert(start =~= start + args_text(exprs_view(args@.take(0))));
    while i < args.len()
        invariant
            i <= args.len(),
            out@ == start + args_text(exprs_view(args@.take(i as int))),
        decreases args.len() - i,
    {
        let ghost before = out@;
        if i > 0 {
            push_str(out, ", ");
        }
        proof {
            vstd::std_specs::vec::axiom_vec_index_decreases(*args, i as int);
        }
        push_expr_text(&args[i], out);
        proof {
            let t = args@.take(i + 1);
            assert(t.drop_last() =~= args@.take(i as int));
            lemma_exprs_view_push(args@.take(i as int), args@[i as int]);
            assert(args@.take(i as int).push(args@[i as int]) =~= t);
            let vs = exprs_view(t);
            assert(vs.drop_last() =~= exprs_view(args@.take(i as int)));
            if i == 0 {
                assert(out@ =~= start + args_text(vs));
            } else {
                assert(out@ =~= start + args_text(vs));
            }
        }
        i = i + 1;
    }
    assert(args@.take(args.len() as int) =~= args@);
}

impl Expr {
    /// A readable text of this expression, as `expr_text` states it.
    pub fn to_text(&self) -> (r: String)
        ensures
            r@ == expr_text(self@),
    {
        let mut out: Vec<char> = Vec::new();
        push_expr_text(self, &mut out);
        assert(out@ =~= expr_text(self@));
        string_of(&out)
    }
}

/// A top-level item: a statement, or an expression whose value is wanted.
#[derive(Debug, PartialEq)]
pub enum Interpretable {
    IStmt(Stmt),
    IExpr(Expr),
}

/// A sequence of top-level items.
#[derive(Debug, PartialEq)]
pub struct Interpretables(pub Vec<Interpretable>);

impl Interpretables {
    pub fn new() -> (r: Interpretables)
        ensures
            r.0@.len() == 0,
    {
        Interpretables(Vec::new())
    }
}

/// A parsed program.
#[derive(Debug, PartialEq)]
pub struct AST {
    pub top: Interpretables,
}

impl AST {
    pub fn new() -> (r: AST)
        ensures
            r.top.0@.len() == 0,
    {
        AST { top: Interpretables::new() }
    }
}

} // verus!
