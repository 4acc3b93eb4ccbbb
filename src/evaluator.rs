use vstd::prelude::*;
use crate::ast::{Expr, Stmt, ExprV, StmtV, Operator, Interpretable, Interpretables};
use crate::parser::ast_view;
use crate::ast::AST;
use crate::ast::{exprs_view, stmts_view, names_view, copy_names, copy_stmt};
use crate::environment::{Environment, EnvV, Function, FunV, lookup, declare, assign, new_scope};
use crate::value::{LoxValue, LoxType, ValueV, RuntimeError, binary, unary, truthy, display, value_res, eval_bin_op, eval_unary_op};

verus! {

// ---------------------------------------------------------------------------
// The meaning of programs. Each function takes the scope it runs in, the
// environment before, and fuel: every nested evaluation and every turn of a
// loop spends one unit, and a run out of fuel stops with `OutOfFuel`.

pub type Outcome = (Result<ValueV, RuntimeError>, EnvV);

pub type StmtOutcome = (Result<Option<ValueV>, RuntimeError>, EnvV);

pub open spec fn eval_expr(e: ExprV, s: nat, env: EnvV, fuel: nat) -> Outcome
    decreases fuel, 0int,
{
    if fuel == 0 {
        (Err(RuntimeError::OutOfFuel), env)
    } else {
        let f = (fuel - 1) as nat;
        match e {
            ExprV::Numb(n) => if n.wf() {
                (Ok(ValueV::Num(n)), env)
            } else {
                (Err(RuntimeError::NumberOverflow), env)
            },
            ExprV::Str(t) => (Ok(ValueV::Str(t)), env),
            ExprV::Bool(b) => (Ok(ValueV::Bool(b)), env),
            ExprV::Nil => (Ok(ValueV::Nil), env),
            ExprV::BinOp(op, l, r) => {
                let (lr, e1) = eval_expr(*l, s, env, f);
                match lr {
                    Err(x) => (Err(x), e1),
                    Ok(lv) => {
                        let (rr, e2) = eval_expr(*r, s, e1, f);
                        match rr {
                            Err(x) => (Err(x), e2),
                            Ok(rv) => (binary(op, lv, rv), e2),
                        }
                    },
                }
            },
            ExprV::Unary(op, x) => {
                let (xr, e1) = eval_expr(*x, s, env, f);
                match xr {
                    Err(err) => (Err(err), e1),
                    Ok(v) => (unary(op, v), e1),
                }
            },
            ExprV::Group(x) => eval_expr(*x, s, env, f),
            ExprV::Var(name) => (lookup(env, s, name), env),
            ExprV::Assign(name, x) => {
                let (xr, e1) = eval_expr(*x, s, env, f);
                match xr {
                    Err(err) => (Err(err), e1),
                    Ok(v) => match assign(e1, s, name, v) {
                        Ok(e2) => (Ok(v), e2),
                        Err(err) => (Err(err), e1),
                    },
                }
            },
            ExprV::Logical(op, l, r) => if op != Operator::And && op != Operator::Or {
                (Err(RuntimeError::InvalidOperator(op)), env)
            } else {
                let (lr, e1) = eval_expr(*l, s, env, f);
                match lr {
                    Err(x) => (Err(x), e1),
                    Ok(lv) => if op == Operator::And && !truthy(lv) {
                        (Ok(ValueV::Bool(false)), e1)
                    } else if op == Operator::Or && truthy(lv) {
                        (Ok(ValueV::Bool(true)), e1)
                    } else {
                        let (rr, e2) = eval_expr(*r, s, e1, f);
                        match rr {
                            Err(x) => (Err(x), e2),
                            Ok(rv) => (Ok(ValueV::Bool(truthy(rv))), e2),
                        }
                    },
                }
            },
            ExprV::Call(callee, args) => {
                let (cr, e1) = eval_expr(*callee, s, env, f);
                match cr {
                    Err(x) => (Err(x), e1),
                    Ok(ValueV::Callable(_, fid)) => {
                        let (ar, e2) = eval_args(args, 0, s, e1, f, seq![]);
                        match ar {
                            Err(x) => (Err(x), e2),
                            Ok(vals) => call_fun(fid, vals, e2, f),
                        }
                    },
                    Ok(_) => (Err(RuntimeError::NotCallable), e1),
                }
            },
        }
    }
}

/// The arguments from index `i` on, left to right, after the values `acc`.
pub open spec fn eval_args(args: Seq<ExprV>, i: nat, s: nat, env: EnvV, fuel: nat, acc: Seq<ValueV>) -> (
    Result<Seq<ValueV>, RuntimeError>,
    EnvV,
)
    decreases fuel, args.len() - i,
{
    if i >= args.len() {
        (Ok(acc), env)
    } else {
        let (vr, e1) = eval_expr(args[i as int], s, env, fuel);
        match vr {
            Err(x) => (Err(x), e1),
            Ok(v) => eval_args(args, i + 1, s, e1, fuel, acc.push(v)),
        }
    }
}

/// The parameters from index `i` on declared one after another in scope `cs`.
pub open spec fn bind_params(env: EnvV, cs: nat, params: Seq<Seq<char>>, vals: Seq<ValueV>, i: nat) -> EnvV
    decreases params.len() - i,
{
    if i >= params.len() || i >= vals.len() {
        env
    } else {
        bind_params(declare(env, cs, params[i as int], Some(vals[i as int])), cs, params, vals, i + 1)
    }
}

/// A call of function `fid`: a new scope nested in the function's own,
/// the parameters bound in it, and the body run there. The value is the
/// one that `return` gave, else `nil`.
pub open spec fn call_fun(fid: nat, vals: Seq<ValueV>, env: EnvV, fuel: nat) -> Outcome
    decreases fuel, 1int,
{
    if fid >= env.funs.len() {
        (Err(RuntimeError::NotCallable), env)
    } else {
        let fun = env.funs[fid as int];
        if vals.len() != fun.params.len() {
            (Err(RuntimeError::ArityMismatch), env)
        } else {
            let cs = env.scopes.len();
            let e1 = bind_params(new_scope(env, fun.closure), cs, fun.params, vals, 0);
            let (r, e2) = exec_stmt(fun.body, cs, e1, fuel);
            match r {
                Err(x) => (Err(x), e2),
                Ok(Some(v)) => (Ok(v), e2),
                Ok(None) => (Ok(ValueV::Nil), e2),
            }
        }
    }
}

/// A statement: `Ok(Some(v))` is a `return` of `v` on its way out,
/// `Ok(None)` a normal end.
pub open spec fn exec_stmt(st: StmtV, s: nat, env: EnvV, fuel: nat) -> StmtOutcome
    decreases fuel, 0int,
{
    if fuel == 0 {
        (Err(RuntimeError::OutOfFuel), env)
    } else {
        let f = (fuel - 1) as nat;
        match st {
            StmtV::Print(e) => {
                let (r, e1) = eval_expr(e, s, env, f);
                match r {
                    Err(x) => (Err(x), e1),
                    Ok(v) => (Ok(None), EnvV { out: e1.out.push(display(v)), ..e1 }),
                }
            },
            StmtV::Expr(e) => {
                let (r, e1) = eval_expr(e, s, env, f);
                match r {
                    Err(x) => (Err(x), e1),
                    Ok(_) => (Ok(None), e1),
                }
            },
            StmtV::Var(name, init) => match init {
                None => (Ok(None), declare(env, s, name, None)),
                Some(e) => {
                    let (r, e1) = eval_expr(e, s, env, f);
                    match r {
                        Err(x) => (Err(x), e1),
                        Ok(v) => (Ok(None), declare(e1, s, name, Some(v))),
                    }
                },
            },
            StmtV::Fun(name, params, body) => {
                let fid = env.funs.len();
                let e1 = EnvV {
                    funs: env.funs.push(FunV { name, params, body: *body, closure: s }),
                    ..env
                };
                (Ok(None), declare(e1, s, name, Some(ValueV::Callable(name, fid))))
            },
            StmtV::Return(e) => {
                let (r, e1) = eval_expr(e, s, env, f);
                match r {
                    Err(x) => (Err(x), e1),
                    Ok(v) => (Ok(Some(v)), e1),
                }
            },
            StmtV::Block(stmts) => exec_seq(stmts, 0, env.scopes.len(), new_scope(env, s), f),
            StmtV::If(c, t, el) => {
                let (r, e1) = eval_expr(c, s, env, f);
                match r {
                    Err(x) => (Err(x), e1),
                    Ok(v) => if truthy(v) {
                        exec_stmt(*t, s, e1, f)
                    } else {
                        match el {
                            Some(b) => exec_stmt(*b, s, e1, f),
                            None => (Ok(None), e1),
                        }
                    },
                }
            },
            StmtV::While(c, b) => exec_while(c, *b, s, env, f),
            StmtV::Empty => (Ok(None), env),
        }
    }
}

/// The statements from index `i` on, in order, until one returns.
pub open spec fn exec_seq(stmts: Seq<StmtV>, i: nat, s: nat, env: EnvV, fuel: nat) -> StmtOutcome
    decreases fuel, stmts.len() - i,
{
    if i >= stmts.len() {
        (Ok(None), env)
    } else {
        let (r, e1) = exec_stmt(stmts[i as int], s, env, fuel);
        match r {
            Ok(None) => exec_seq(stmts, i + 1, s, e1, fuel),
            _ => (r, e1),
        }
    }
}

/// A loop: the condition before each turn, until it is false or the body
/// returns.
pub open spec fn exec_while(c: ExprV, body: StmtV, s: nat, env: EnvV, fuel: nat) -> StmtOutcome
    decreases fuel, 0int,
{
    if fuel == 0 {
        (Err(RuntimeError::OutOfFuel), env)
    } else {
        let f = (fuel - 1) as nat;
        let (r, e1) = eval_expr(c, s, env, f);
        match r {
            Err(x) => (Err(x), e1),
            Ok(v) => if !truthy(v) {
                (Ok(None), e1)
            } else {
                let (br, e2) = exec_stmt(body, s, e1, f);
                match br {
                    Ok(None) => exec_while(c, body, s, e2, f),
                    _ => (br, e2),
                }
            },
        }
    }
}


// ---------------------------------------------------------------------------
// The evaluator.

pub open spec fn values_view(vs: Seq<LoxValue>) -> Seq<ValueV> {
    vs.map_values(|v: LoxValue| v@)
}

pub open spec fn all_wf(vs: Seq<LoxValue>) -> bool {
    forall|i: int| 0 <= i < vs.len() ==> (#[trigger] vs[i]).wf()
}

pub open spec fn stmt_res(r: Result<Option<LoxValue>, RuntimeError>) -> Result<Option<ValueV>, RuntimeError> {
    match r {
        Ok(Some(v)) => Ok(Some(v@)),
        Ok(None) => Ok(None),
        Err(x) => Err(x),
    }
}

/// Evaluates an expression in scope `scope`.
pub fn eval(expr: &Expr, scope: usize, env: &mut Environment, fuel: u64) -> (r: Result<LoxValue, RuntimeError>)
    requires
        old(env).wf(),
        scope < old(env)@.scopes.len(),
    ensures
        final(env).wf(),
        final(env)@.scopes.len() >= old(env)@.scopes.len(),
        (value_res(r), final(env)@) == eval_expr(expr@, scope as nat, old(env)@, fuel as nat),
        r matches Ok(v) ==> v.wf(),
    decreases fuel, 1int,
{
    if fuel == 0 {
        return Err(RuntimeError::OutOfFuel);
    }
    let f = fuel - 1;
    match expr {
        Expr::ENumb { value } => {
            if value.is_wf() {
                Ok(LoxValue(LoxType::VNumb(*value)))
            } else {
                Err(RuntimeError::NumberOverflow)
            }
        },
        Expr::EStr { value } => Ok(LoxValue(LoxType::VStr(value.clone()))),
        Expr::EBool { value } => Ok(LoxValue(LoxType::VBool(*value))),
        Expr::ENil => Ok(LoxValue(LoxType::VNil)),
        Expr::EBinOp { op, left, right } => eval_binary(op, left, right, scope, env, fuel),
        Expr::EUnaryOp { op, operand } => {
            let v = match eval(operand, scope, env, f) {
                Ok(v) => v,
                Err(x) => return Err(x),
            };
            eval_unary_op(op, &v)
        },
        Expr::EGroup { expr } => eval(expr, scope, env, f),
        Expr::EVar { name } => env.lookup(scope, name),
        Expr::EAssign { name, expr } => {
            let v = match eval(expr, scope, env, f) {
                Ok(v) => v,
                Err(x) => return Err(x),
            };
            env.assign(scope, name, v)
        },
        Expr::ELogicalOp { op, left, right } => eval_logical(op, left, right, scope, env, fuel),
        Expr::ECall { func, args } => eval_call(func, args, scope, env, fuel),
    }
}

fn eval_binary(op: &Operator, left: &Expr, right: &Expr, scope: usize, env: &mut Environment, fuel: u64) -> (r:
    Result<LoxValue, RuntimeError>)
    requires
        old(env).wf(),
        scope < old(env)@.scopes.len(),
        fuel > 0,
    ensures
        final(env).wf(),
        final(env)@.scopes.len() >= old(env)@.scopes.len(),
        (value_res(r), final(env)@) == eval_expr(
            ExprV::BinOp(*op, Box::new(left@), Box::new(right@)),
            scope as nat,
            old(env)@,
            fuel as nat,
        ),
        r matches Ok(v) ==> v.wf(),
    decreases fuel, 0int,
{
    let f = fuel - 1;
    let lv = match eval(left, scope, env, f) {
        Ok(v) => v,
        Err(x) => return Err(x),
    };
    let rv = match eval(right, scope, env, f) {
        Ok(v) => v,
        Err(x) => return Err(x),
    };
    eval_bin_op(op, &lv, &rv)
}

/// `and` and `or`: the right operand only where the left one leaves the
/// answer open.
fn eval_logical(op: &Operator, left: &Expr, right: &Expr, scope: usize, env: &mut Environment, fuel: u64) -> (r:
    Result<LoxValue, RuntimeError>)
    requires
        old(env).wf(),
        scope < old(env)@.scopes.len(),
        fuel > 0,
    ensures
        final(env).wf(),
        final(env)@.scopes.len() >= old(env)@.scopes.len(),
        (value_res(r), final(env)@) == eval_expr(
            ExprV::Logical(*op, Box::new(left@), Box::new(right@)),
            scope as nat,
            old(env)@,
            fuel as nat,
        ),
        r matches Ok(v) ==> v.wf(),
    decreases fuel, 0int,
{
    let f = fuel - 1;
    if *op != Operator::And && *op != Operator::Or {
        return Err(RuntimeError::InvalidOperator(*op));
    }
    let lv = match eval(left, scope, env, f) {
        Ok(v) => v,
        Err(x) => return Err(x),
    };
    let lt = lv._is_truthy();
    if *op == Operator::And && !lt {
        return Ok(LoxValue(LoxType::VBool(false)));
    }
    if *op == Operator::Or && lt {
        return Ok(LoxValue(LoxType::VBool(true)));
    }
    let rv = match eval(right, scope, env, f) {
        Ok(v) => v,
        Err(x) => return Err(x),
    };
    if *op == Operator::And {
        lv.and(&rv)
    } else {
        lv.or(&rv)
    }
}

fn eval_call(func: &Expr, args: &Vec<Expr>, scope: usize, env: &mut Environment, fuel: u64) -> (r: Result<
    LoxValue,
    RuntimeError,
>)
    requires
        old(env).wf(),
        scope < old(env)@.scopes.len(),
        fuel > 0,
    ensures
        final(env).wf(),
        final(env)@.scopes.len() >= old(env)@.scopes.len(),
        (value_res(r), final(env)@) == eval_expr(
            ExprV::Call(Box::new(func@), exprs_view(args@)),
            scope as nat,
            old(env)@,
            fuel as nat,
        ),
        r matches Ok(v) ==> v.wf(),
    decreases fuel, 0int,
{
    let f = fuel - 1;
    let callee = match eval(func, scope, env, f) {
        Ok(v) => v,
        Err(x) => return Err(x),
    };
    let fid = match &callee.0 {
        LoxType::VCallable(_, fid) => *fid,
        _ => return Err(RuntimeError::NotCallable),
    };
    let vals = match eval_arguments(args, scope, env, f) {
        Ok(v) => v,
        Err(x) => return Err(x),
    };
    call_function(fid, vals, env, f)
}

/// Evaluates call arguments, left to right.
fn eval_arguments(args: &Vec<Expr>, scope: usize, env: &mut Environment, fuel: u64) -> (r: Result<
    Vec<LoxValue>,
    RuntimeError,
>)
    requires
        old(env).wf(),
        scope < old(env)@.scopes.len(),
    ensures
        final(env).wf(),
        final(env)@.scopes.len() >= old(env)@.scopes.len(),
        (match r {
            Ok(vs) => Ok(values_view(vs@)),
            Err(x) => Err(x),
        }, final(env)@) == eval_args(exprs_view(args@), 0, scope as nat, old(env)@, fuel as nat, seq![]),
        r matches Ok(vs) ==> all_wf(vs@),
    decreases fuel, args@.len() + 1,
{
    let ghost env0 = env@;
    let ghost es = exprs_view(args@);
    proof {
        lemma_exprs_view_index(args@);
    }
    let mut vals: Vec<LoxValue> = Vec::new();
    let mut i: usize = 0;
    assert(values_view(vals@) =~= seq![]);
    while i < args.len()
        invariant
            i <= args.len(),
            es == exprs_view(args@),
            es.len() == args.len(),
            forall|k: int| 0 <= k < args.len() ==> es[k] == (#[trigger] args@[k])@,
            env.wf(),
            scope < env@.scopes.len(),
            env@.scopes.len() >= env0.scopes.len(),
            env0 == old(env)@,
            all_wf(vals@),
            eval_args(es, 0, scope as nat, env0, fuel as nat, seq![]) == eval_args(
                es,
                i as nat,
                scope as nat,
                env@,
                fuel as nat,
                values_view(vals@),
            ),
        decreases args.len() - i,
    {
        let v = match eval(&args[i], scope, env, fuel) {
            Ok(v) => v,
            Err(x) => return Err(x),
        };
        proof {
            assert(values_view(vals@.push(v)) =~= values_view(vals@).push(v@));
        }
        vals.push(v);
        i = i + 1;
    }
    Ok(vals)
}

proof fn lemma_exprs_view_index(es: Seq<Expr>)
    ensures
        exprs_view(es).len() == es.len(),
        forall|k: int| 0 <= k < es.len() ==> exprs_view(es)[k] == (#[trigger] es[k])@,
    decreases es.len(),
{
    if es.len() > 0 {
        lemma_exprs_view_index(es.drop_last());
        assert forall|k: int| 0 <= k < es.len() implies exprs_view(es)[k] == (#[trigger] es[k])@ by {
            if k < es.len() - 1 {
                assert(es.drop_last()[k] == es[k]);
            }
        }
    }
}

proof fn lemma_stmts_view_index(ss: Seq<Stmt>)
    ensures
        stmts_view(ss).len() == ss.len(),
        forall|k: int| 0 <= k < ss.len() ==> stmts_view(ss)[k] == (#[trigger] ss[k])@,
    decreases ss.len(),
{
    if ss.len() > 0 {
        lemma_stmts_view_index(ss.drop_last());
        assert forall|k: int| 0 <= k < ss.len() implies stmts_view(ss)[k] == (#[trigger] ss[k])@ by {
            if k < ss.len() - 1 {
                assert(ss.drop_last()[k] == ss[k]);
            }
        }
    }
}

/// Calls function `fid` on argument values.
fn call_function(fid: usize, vals: Vec<LoxValue>, env: &mut Environment, fuel: u64) -> (r: Result<
    LoxValue,
    RuntimeError,
>)
    requires
        old(env).wf(),
        all_wf(vals@),
    ensures
        final(env).wf(),
        final(env)@.scopes.len() >= old(env)@.scopes.len(),
        (value_res(r), final(env)@) == call_fun(fid as nat, values_view(vals@), old(env)@, fuel as nat),
        r matches Ok(v) ==> v.wf(),
    decreases fuel, 1int,
{
    if fid >= env.functions.len() {
        return Err(RuntimeError::NotCallable);
    }
    if vals.len() != env.functions[fid].params.len() {
        return Err(RuntimeError::ArityMismatch);
    }
    let ghost env0 = env@;
    let ghost fun = env@.funs[fid as int];
    assert(fun == env.functions@[fid as int]@);
    let closure = env.functions[fid].closure;
    let params = copy_names(&env.functions[fid].params);
    let body = copy_stmt(&env.functions[fid].body);
    let cs = env.new_child(closure);
    let ghost ps = names_view(params@);
    let ghost vs = values_view(vals@);
    assert(ps.len() == params.len());
    let mut i: usize = 0;
    while i < params.len()
        invariant
            i <= params.len(),
            params.len() == vals.len(),
            ps == names_view(params@),
            vs == values_view(vals@),
            all_wf(vals@),
            env.wf(),
            cs < env@.scopes.len(),
            env@.scopes.len() == env0.scopes.len() + 1,
            bind_params(new_scope(env0, fun.closure), cs as nat, ps, vs, 0) == bind_params(
                env@,
                cs as nat,
                ps,
                vs,
                i as nat,
            ),
        decreases params.len() - i,
    {
        env.var(cs, &params[i], Some(vals[i].copy()));
        i = i + 1;
    }
    match exec(&body, cs, env, fuel) {
        Ok(Some(v)) => Ok(v),
        Ok(None) => Ok(LoxValue(LoxType::VNil)),
        Err(x) => Err(x),
    }
}

/// Runs a statement in scope `scope`: `Ok(Some(v))` is a `return` of `v`
/// on its way out.
pub fn exec(stmt: &Stmt, scope: usize, env: &mut Environment, fuel: u64) -> (r: Result<
    Option<LoxValue>,
    RuntimeError,
>)
    requires
        old(env).wf(),
        scope < old(env)@.scopes.len(),
    ensures
        final(env).wf(),
        final(env)@.scopes.len() >= old(env)@.scopes.len(),
        (stmt_res(r), final(env)@) == exec_stmt(stmt@, scope as nat, old(env)@, fuel as nat),
        r matches Ok(Some(v)) ==> v.wf(),
    decreases fuel, 0int,
{
    if fuel == 0 {
        return Err(RuntimeError::OutOfFuel);
    }
    let f = fuel - 1;
    match stmt {
        Stmt::SPrint(expr) => {
            let v = match eval(expr, scope, env, f) {
                Ok(v) => v,
                Err(x) => return Err(x),
            };
            env.print(v.value_string());
            Ok(None)
        },
        Stmt::SExpr(expr) => {
            match eval(expr, scope, env, f) {
                Ok(_) => Ok(None),
                Err(x) => Err(x),
            }
        },
        Stmt::SVar(name, value) => {
            match value {
                None => {
                    env.var(scope, name, None);
                },
                Some(e) => {
                    let v = match eval(e, scope, env, f) {
                        Ok(v) => v,
                        Err(x) => return Err(x),
                    };
                    env.var(scope, name, Some(v));
                },
            }
            Ok(None)
        },
        Stmt::SFun(name, params, body) => {
            let fun = Function {
                name: name.clone(),
                params: copy_names(params),
                body: copy_stmt(body),
                closure: scope,
            };
            let fid = env.add_function(fun);
            env.var(scope, name, Some(LoxValue(LoxType::VCallable(name.clone(), fid))));
            Ok(None)
        },
        Stmt::SReturn(expr) => {
            match eval(expr, scope, env, f) {
                Ok(v) => Ok(Some(v)),
                Err(x) => Err(x),
            }
        },
        Stmt::SBlock(stmts) => {
            let inner = env.new_child(scope);
            exec_block(stmts, inner, env, f)
        },
        Stmt::SIf(cond, then, else_) => {
            let c = match eval(cond, scope, env, f) {
                Ok(v) => v,
                Err(x) => return Err(x),
            };
            if c._is_truthy() {
                return exec(then, scope, env, f);
            }
            match else_ {
                Some(b) => exec(b, scope, env, f),
                None => Ok(None),
            }
        },
        Stmt::SWhile(cond, body) => exec_loop(cond, body, scope, env, f),
        Stmt::SEmpty => Ok(None),
    }
}

/// Runs the statements of a block in order, in the block's own scope.
fn exec_block(stmts: &Vec<Stmt>, scope: usize, env: &mut Environment, fuel: u64) -> (r: Result<
    Option<LoxValue>,
    RuntimeError,
>)
    requires
        old(env).wf(),
        scope < old(env)@.scopes.len(),
    ensures
        final(env).wf(),
        final(env)@.scopes.len() >= old(env)@.scopes.len(),
        (stmt_res(r), final(env)@) == exec_seq(stmts_view(stmts@), 0, scope as nat, old(env)@, fuel as nat),
        r matches Ok(Some(v)) ==> v.wf(),
    decreases fuel, stmts@.len(),
{
    let ghost env0 = env@;
    let ghost ss = stmts_view(stmts@);
    proof {
        lemma_stmts_view_index(stmts@);
    }
    let mut i: usize = 0;
    while i < stmts.len()
        invariant
            i <= stmts.len(),
            ss == stmts_view(stmts@),
            ss.len() == stmts.len(),
            forall|k: int| 0 <= k < stmts.len() ==> ss[k] == (#[trigger] stmts@[k])@,
            env.wf(),
            scope < env@.scopes.len(),
            env@.scopes.len() >= env0.scopes.len(),
            env0 == old(env)@,
            exec_seq(ss, 0, scope as nat, env0, fuel as nat) == exec_seq(ss, i as nat, scope as nat, env@, fuel as nat),
        decreases stmts.len() - i,
    {
        match exec(&stmts[i], scope, env, fuel) {
            Ok(None) => {},
            r => return r,
        }
        i = i + 1;
    }
    Ok(None)
}

/// Runs a `while` loop.
fn exec_loop(cond: &Expr, body: &Stmt, scope: usize, env: &mut Environment, fuel: u64) -> (r: Result<
    Option<LoxValue>,
    RuntimeError,
>)
    requires
        old(env).wf(),
        scope < old(env)@.scopes.len(),
    ensures
        final(env).wf(),
        final(env)@.scopes.len() >= old(env)@.scopes.len(),
        (stmt_res(r), final(env)@) == exec_while(cond@, body@, scope as nat, old(env)@, fuel as nat),
        r matches Ok(Some(v)) ==> v.wf(),
    decreases fuel, 0int,
{
    let ghost env0 = env@;
    let mut budget = fuel;
    loop
        invariant
            env.wf(),
            scope < env@.scopes.len(),
            env@.scopes.len() >= env0.scopes.len(),
            env0 == old(env)@,
            budget <= fuel,
            exec_while(cond@, body@, scope as nat, env0, fuel as nat) == exec_while(
                cond@,
                body@,
                scope as nat,
                env@,
                budget as nat,
            ),
        decreases budget,
    {
        if budget == 0 {
            return Err(RuntimeError::OutOfFuel);
        }
        let f = budget - 1;
        let c = match eval(cond, scope, env, f) {
            Ok(v) => v,
            Err(x) => return Err(x),
        };
        if !c._is_truthy() {
            return Ok(None);
        }
        match exec(body, scope, env, f) {
            Ok(None) => {},
            r => return r,
        }
        budget = f;
    }
}


/// Marks a value as present.
fn _add_option<T, E>(x: Result<T, E>) -> (r: Result<Option<T>, E>)
    ensures
        match x {
            Ok(v) => r == Ok::<Option<T>, E>(Some(v)),
            Err(e) => r == Err::<Option<T>, E>(e),
        },
{
    match x {
        Ok(v) => Ok(Some(v)),
        Err(e) => Err(e),
    }
}

/// Runs top-level items in order in scope `scope`, until one returns; an
/// expression item gives its value.
pub fn interpret(interpretables: &Interpretables, scope: usize, env: &mut Environment, fuel: u64) -> (r:
    Result<Option<LoxValue>, RuntimeError>)
    requires
        old(env).wf(),
        scope < old(env)@.scopes.len(),
    ensures
        final(env).wf(),
        (stmt_res(r), final(env)@) == exec_seq(
            ast_view(AST { top: *interpretables }),
            0,
            scope as nat,
            old(env)@,
            fuel as nat,
        ),
        r matches Ok(Some(v)) ==> v.wf(),
{
    let ghost ss = ast_view(AST { top: *interpretables });
    let ghost env0 = env@;
    let items = &interpretables.0;
    let mut i: usize = 0;
    while i < items.len()
        invariant
            i <= items.len(),
            items == &interpretables.0,
            ss == ast_view(AST { top: *interpretables }),
            ss.len() == items.len(),
            env.wf(),
            scope < env@.scopes.len(),
            env0 == old(env)@,
            exec_seq(ss, 0, scope as nat, env0, fuel as nat) == exec_seq(ss, i as nat, scope as nat, env@, fuel as nat),
        decreases items.len() - i,
    {
        assert(ss[i as int] == match items@[i as int] {
            Interpretable::IStmt(st) => st@,
            Interpretable::IExpr(e) => StmtV::Return(e@),
        });
        match &items[i] {
            Interpretable::IStmt(stmt) => {
                match exec(stmt, scope, env, fuel) {
                    Ok(None) => {},
                    r => return r,
                }
            },
            Interpretable::IExpr(expr) => {
                let ghost before = env@;
                if fuel == 0 {
                    assert(exec_stmt(ss[i as int], scope as nat, before, fuel as nat) == (
                        Err::<Option<ValueV>, RuntimeError>(RuntimeError::OutOfFuel),
                        before,
                    ));
                    return Err(RuntimeError::OutOfFuel);
                }
                let res = eval(expr, scope, env, fuel - 1);
                assert(exec_stmt(ss[i as int], scope as nat, before, fuel as nat) == (
                    match value_res(res) {
                        Ok(v) => Ok(Some(v)),
                        Err(x) => Err::<Option<ValueV>, RuntimeError>(x),
                    },
                    env@,
                ));
                return _add_option(res);
            },
        }
        i = i + 1;
    }
    Ok(None)
}

} // verus!
