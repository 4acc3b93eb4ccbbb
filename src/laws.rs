use vstd::prelude::*;
use crate::ast::{ExprV, StmtV, Operator};
use crate::environment::{EnvV, lookup, declare, new_scope, find};
use crate::evaluator::{eval_expr, exec_stmt, exec_seq, call_fun};
use crate::number::Number;
use crate::value::{ValueV, RuntimeError, truthy, unary};
use crate::tokenizer::{
    Scan, TokenView, LiteralView, TokenType, scan_one, lex, lex_from, ident_end, number_end, string_end,
    single_type, pair_type, comment_end,
};
use crate::number::is_digit;
use crate::text::is_alnum;

verus! {

/// Every number is true, zero included, so `!n` is `false` for every
/// number `n`.
pub proof fn law_numbers_are_true(n: Number, s: nat, env: EnvV, fuel: nat)
    requires
        n.wf(),
        fuel >= 2,
    ensures
        truthy(ValueV::Num(n)),
        unary(Operator::Not, ValueV::Num(n)) == Ok::<ValueV, RuntimeError>(ValueV::Bool(false)),
        eval_expr(ExprV::Unary(Operator::Not, Box::new(ExprV::Numb(n))), s, env, fuel) == (
            Ok::<ValueV, RuntimeError>(ValueV::Bool(false)),
            env,
        ),
{
    assert(eval_expr(ExprV::Numb(n), s, env, (fuel - 1) as nat) == (Ok::<ValueV, RuntimeError>(ValueV::Num(n)), env));
}

/// `false and r` is `false` and `true or r` is `true` without evaluating
/// `r`: whatever `r` is, the environment is left as it was.
pub proof fn law_short_circuit(r: ExprV, s: nat, env: EnvV, fuel: nat)
    requires
        fuel >= 2,
    ensures
        eval_expr(ExprV::Logical(Operator::And, Box::new(ExprV::Bool(false)), Box::new(r)), s, env, fuel)
            == (Ok::<ValueV, RuntimeError>(ValueV::Bool(false)), env),
        eval_expr(ExprV::Logical(Operator::Or, Box::new(ExprV::Bool(true)), Box::new(r)), s, env, fuel)
            == (Ok::<ValueV, RuntimeError>(ValueV::Bool(true)), env),
{
    assert(eval_expr(ExprV::Bool(false), s, env, (fuel - 1) as nat) == (Ok::<ValueV, RuntimeError>(ValueV::Bool(false)), env));
    assert(eval_expr(ExprV::Bool(true), s, env, (fuel - 1) as nat) == (Ok::<ValueV, RuntimeError>(ValueV::Bool(true)), env));
}

/// A call with more or fewer arguments than the function has parameters
/// fails with `ArityMismatch` and changes nothing.
pub proof fn law_arity(fid: nat, vals: Seq<ValueV>, env: EnvV, fuel: nat)
    requires
        fid < env.funs.len(),
        vals.len() != env.funs[fid as int].params.len(),
    ensures
        call_fun(fid, vals, env, fuel) == (Err::<ValueV, RuntimeError>(RuntimeError::ArityMismatch), env),
{
}

/// Lookups from scope `s` only read scopes up to `s`.
pub proof fn lemma_lookup_prefix(a: EnvV, b: EnvV, s: nat, name: Seq<char>)
    requires
        a.wf(),
        s < a.scopes.len() <= b.scopes.len(),
        forall|k: int| 0 <= k <= s ==> b.scopes[k] == a.scopes[k],
    ensures
        lookup(b, s, name) == lookup(a, s, name),
    decreases s,
{
    let sc = a.scopes[s as int];
    if find(sc.names, name) is None {
        if let Some(p) = sc.parent {
            if p < s {
                lemma_lookup_prefix(a, b, p, name);
            }
        }
    }
}

/// A variable declared inside a block is gone when the block ends: the
/// block adds a scope of its own and leaves every scope before it as it
/// was, so every lookup from the enclosing scope, of the same name or any
/// other, gives what it gave before. An outer binding of the same name is
/// shadowed inside the block and untouched by it.
pub proof fn law_block_scoping(name: Seq<char>, n: Number, s: nat, env: EnvV, fuel: nat, other: Seq<char>)
    requires
        env.wf(),
        s < env.scopes.len(),
        n.wf(),
        fuel >= 3,
    ensures
        ({
            let (r, env2) = exec_stmt(
                StmtV::Block(seq![StmtV::Var(name, Some(ExprV::Numb(n)))]),
                s,
                env,
                fuel,
            );
            &&& r == Ok::<Option<ValueV>, RuntimeError>(None)
            &&& env2.scopes.len() == env.scopes.len() + 1
            &&& forall|k: int| 0 <= k < env.scopes.len() ==> env2.scopes[k] == env.scopes[k]
            &&& lookup(env2, s, other) == lookup(env, s, other)
        }),
{
    let f = (fuel - 1) as nat;
    let c = env.scopes.len();
    let e1 = new_scope(env, s);
    let st = StmtV::Var(name, Some(ExprV::Numb(n)));
    let stmts = seq![st];
    assert(eval_expr(ExprV::Numb(n), c, e1, (f - 1) as nat) == (Ok::<ValueV, RuntimeError>(ValueV::Num(n)), e1));
    let e2 = declare(e1, c, name, Some(ValueV::Num(n)));
    assert(exec_stmt(st, c, e1, f) == (Ok::<Option<ValueV>, RuntimeError>(None), e2));
    assert(exec_seq(stmts, 1, c, e2, f) == (Ok::<Option<ValueV>, RuntimeError>(None), e2));
    assert(exec_seq(stmts, 0, c, e1, f) == (Ok::<Option<ValueV>, RuntimeError>(None), e2));
    assert forall|k: int| 0 <= k < env.scopes.len() implies e2.scopes[k] == env.scopes[k] by {}
    lemma_lookup_prefix(env, e2, s, other);
}


proof fn lemma_ident_sub(s: Seq<char>, i: nat, k: nat, e: nat)
    requires
        i < k <= e <= s.len(),
        ident_end(s, k) == e,
    ensures
        ident_end(s.subrange(i as int, e as int), (k - i) as nat) == e - i,
    decreases e - k,
{
    let sub = s.subrange(i as int, e as int);
    if k < e {
        assert(sub[k - i] == s[k as int]);
        lemma_ident_sub(s, i, k + 1, e);
    }
}

proof fn lemma_number_sub(s: Seq<char>, i: nat, k: nat, e: nat, dot: bool)
    requires
        i < k <= e <= s.len(),
        number_end(s, k, dot) == e,
    ensures
        number_end(s.subrange(i as int, e as int), (k - i) as nat, dot) == e - i,
    decreases e - k,
{
    let sub = s.subrange(i as int, e as int);
    if k < e {
        assert(sub[k - i] == s[k as int]);
        if s[k as int] == '.' && !dot {
            lemma_number_sub(s, i, k + 1, e, true);
        } else {
            lemma_number_sub(s, i, k + 1, e, dot);
        }
    }
}

proof fn lemma_string_sub(s: Seq<char>, i: nat, k: nat, j: nat)
    requires
        i < k <= j < s.len(),
        string_end(s, k) == Some(j),
    ensures
        string_end(s.subrange(i as int, j + 1 as int), (k - i) as nat) == Some((j - i) as nat),
    decreases j - k,
{
    let sub = s.subrange(i as int, j + 1 as int);
    assert(sub[k - i] == s[k as int]);
    crate::tokenizer::lemma_string_end(s, k);
    if k < j {
        lemma_string_sub(s, i, k + 1, j);
    }
}

/// Each token read again from its own text alone is one token of the same
/// type with the same literal value.
pub proof fn law_token_relexes(s: Seq<char>, i: nat)
    requires
        i < s.len(),
        scan_one(s, i) is Emit,
    ensures
        ({
            let t = scan_one(s, i)->Emit_0;
            &&& lex(t.lexeme) is Ok
            &&& lex(t.lexeme)->Ok_0.len() == 1
            &&& lex(t.lexeme)->Ok_0[0].typ == t.typ
            &&& lex(t.lexeme)->Ok_0[0].literal == t.literal
        }),
{
    let t = scan_one(s, i)->Emit_0;
    let j = scan_one(s, i)->Emit_1;
    let c = s[i as int];
    let sub = t.lexeme;
    if single_type(c) is Some {
        assert(sub[0] == c);
        assert(lex_from(sub, 1) == Ok::<Seq<TokenView>, crate::tokenizer::TokenizeError>(seq![]));
    } else if pair_type(c, false) is Some {
        if i + 1 < s.len() && s[i + 1 as int] == '=' {
            assert(sub[0] == c);
            assert(sub[1] == '=');
            assert(lex_from(sub, 2) == Ok::<Seq<TokenView>, crate::tokenizer::TokenizeError>(seq![]));
        } else {
            assert(sub[0] == c);
            assert(lex_from(sub, 1) == Ok::<Seq<TokenView>, crate::tokenizer::TokenizeError>(seq![]));
        }
    } else if c == '/' {
        assert(sub[0] == c);
        assert(lex_from(sub, 1) == Ok::<Seq<TokenView>, crate::tokenizer::TokenizeError>(seq![]));
    } else if c == '"' {
        crate::tokenizer::lemma_string_end(s, i + 1);
        let k = string_end(s, i + 1)->Some_0;
        lemma_string_sub(s, i, i + 1, k);
        assert(sub[0] == c);
        assert(sub.subrange(1, (k - i) as int) =~= s.subrange(i + 1 as int, k as int));
        assert(lex_from(sub, sub.len()) == Ok::<Seq<TokenView>, crate::tokenizer::TokenizeError>(seq![]));
    } else if is_digit(c) {
        let e = number_end(s, i + 1, false);
        crate::tokenizer::lemma_number_end_bound(s, i + 1, false);
        lemma_number_sub(s, i, i + 1, e, false);
        assert(sub[0] == c);
        assert(sub.subrange(0, (e - i) as int) =~= sub);
        assert(lex_from(sub, sub.len()) == Ok::<Seq<TokenView>, crate::tokenizer::TokenizeError>(seq![]));
    } else {
        let e = ident_end(s, i + 1);
        crate::tokenizer::lemma_ident_end(s, i + 1);
        lemma_ident_sub(s, i, i + 1, e);
        assert(sub[0] == c);
        assert(sub.subrange(0, (e - i) as int) =~= sub);
        assert(lex_from(sub, sub.len()) == Ok::<Seq<TokenView>, crate::tokenizer::TokenizeError>(seq![]));
    }
}


/// Every token that the lexer gives is the token of one step at some index.
proof fn lemma_tokens_from_steps(s: Seq<char>, i: nat)
    requires
        lex_from(s, i) is Ok,
    ensures
        forall|k: int|
            #![trigger lex_from(s, i)->Ok_0[k]]
            0 <= k < lex_from(s, i)->Ok_0.len() ==> exists|m: nat|
                #![trigger scan_one(s, m)]
                m < s.len() && scan_one(s, m) is Emit && scan_one(s, m)->Emit_0 == lex_from(s, i)->Ok_0[k],
    decreases s.len() - i,
{
    if i < s.len() {
        match scan_one(s, i) {
            Scan::Skip(j) => {
                if i < j <= s.len() {
                    lemma_tokens_from_steps(s, j);
                }
            },
            Scan::Emit(t, j) => {
                if i < j <= s.len() {
                    lemma_tokens_from_steps(s, j);
                    let ts = lex_from(s, i)->Ok_0;
                    let rest = lex_from(s, j)->Ok_0;
                    assert(ts == seq![t] + rest);
                    assert forall|k: int| #![trigger ts[k]] 0 <= k < ts.len() implies exists|m: nat|
                        #![trigger scan_one(s, m)]
                        m < s.len() && scan_one(s, m) is Emit && scan_one(s, m)->Emit_0 == ts[k] by {
                        if k == 0 {
                            assert(scan_one(s, i)->Emit_0 == ts[k]);
                        } else {
                            assert(ts[k] == rest[k - 1]);
                        }
                    }
                }
            },
            Scan::Fail(_) => {},
        }
    }
}

/// Lexing is idempotent token by token: each token of a text, read again
/// from its own text alone, is one token of the same type with the same
/// literal value.
pub proof fn law_lexing_idempotent(s: Seq<char>)
    requires
        lex(s) is Ok,
    ensures
        forall|k: int|
            0 <= k < lex(s)->Ok_0.len() ==> {
                let t = #[trigger] lex(s)->Ok_0[k];
                &&& lex(t.lexeme) is Ok
                &&& lex(t.lexeme)->Ok_0.len() == 1
                &&& lex(t.lexeme)->Ok_0[0].typ == t.typ
                &&& lex(t.lexeme)->Ok_0[0].literal == t.literal
            },
{
    lemma_tokens_from_steps(s, 0);
    assert forall|k: int| 0 <= k < lex(s)->Ok_0.len() implies {
        let t = #[trigger] lex(s)->Ok_0[k];
        &&& lex(t.lexeme) is Ok
        &&& lex(t.lexeme)->Ok_0.len() == 1
        &&& lex(t.lexeme)->Ok_0[0].typ == t.typ
        &&& lex(t.lexeme)->Ok_0[0].literal == t.literal
    } by {
        let m = choose|m: nat| #![trigger scan_one(s, m)]
            m < s.len() && scan_one(s, m) is Emit && scan_one(s, m)->Emit_0 == lex(s)->Ok_0[k];
        law_token_relexes(s, m);
    }
}

/// The text of the tokens from index `i` on, with the white space between
/// them as it was and the comments left out.
pub open spec fn strip_from(s: Seq<char>, i: nat) -> Seq<char>
    decreases s.len() - i,
{
    if i >= s.len() {
        seq![]
    } else {
        match scan_one(s, i) {
            Scan::Skip(j) => if i < j <= s.len() {
                if s[i as int] == '/' {
                    strip_from(s, j)
                } else {
                    seq![s[i as int]] + strip_from(s, j)
                }
            } else {
                seq![]
            },
            Scan::Emit(t, j) => if i < j <= s.len() {
                t.lexeme + strip_from(s, j)
            } else {
                seq![]
            },
            Scan::Fail(_) => seq![],
        }
    }
}

/// The types and literal values of tokens, their places left out.
pub open spec fn kinds(ts: Seq<TokenView>) -> Seq<(TokenType, Option<LiteralView>)> {
    ts.map_values(|t: TokenView| (t.typ, t.literal))
}

/// What stands at index `q` of `t` is the end, what stands at index `j`
/// of `s`, or a newline.
spec fn follows(s: Seq<char>, j: nat, t: Seq<char>, q: nat) -> bool {
    q == t.len() || (q < t.len() && ((j < s.len() && t[q as int] == s[j as int]) || t[q as int] == '\n'))
}

/// The stripped text starts with the character it stands for, or with the
/// newline that ends a comment.
proof fn lemma_strip_head(s: Seq<char>, j: nat)
    requires
        j <= s.len(),
        lex_from(s, j) is Ok,
        strip_from(s, j).len() > 0,
    ensures
        j < s.len(),
        strip_from(s, j)[0] == s[j as int] || strip_from(s, j)[0] == '\n',
{
    match scan_one(s, j) {
        Scan::Skip(e) => {
            if s[j as int] == '/' {
                crate::tokenizer::lemma_comment_end(s, j + 2);
                let ce = comment_end(s, j + 2);
                assert(e == ce);
                assert(strip_from(s, j) == strip_from(s, ce));
                if ce < s.len() {
                    assert(s[ce as int] == '\n');
                    assert(scan_one(s, ce) == Scan::Skip(ce + 1));
                    assert(strip_from(s, ce) == seq![s[ce as int]] + strip_from(s, ce + 1));
                }
            }
        },
        Scan::Emit(tok, e) => {
            assert(tok.lexeme[0] == s[j as int]);
        },
        Scan::Fail(_) => {},
    }
}

proof fn lemma_ident_follow(s: Seq<char>, t: Seq<char>, i: nat, k: nat, p: nat, j: nat)
    requires
        i < p <= j <= s.len(),
        ident_end(s, p) == j,
        k + (j - i) <= t.len(),
        forall|q: int| p <= q < j ==> t[k + q - i] == s[q],
        follows(s, j, t, (k + j - i) as nat),
    ensures
        ident_end(t, (k + p - i) as nat) == k + j - i,
    decreases j - p,
{
    let q = (k + j - i) as nat;
    if p < j {
        assert(t[k + p - i] == s[p as int]);
        lemma_ident_follow(s, t, i, k, p + 1, j);
    } else if q < t.len() {
        if j < s.len() && t[q as int] == s[j as int] {
            crate::tokenizer::lemma_ident_end(s, j + 1);
            assert(!(is_alnum(s[j as int]) || s[j as int] == '_'));
        }
        assert(!(is_alnum(t[q as int]) || t[q as int] == '_'));
    }
}

proof fn lemma_number_follow(s: Seq<char>, t: Seq<char>, i: nat, k: nat, p: nat, j: nat, dot: bool)
    requires
        i < p <= j <= s.len(),
        number_end(s, p, dot) == j,
        k + (j - i) <= t.len(),
        forall|q: int| p <= q < j ==> t[k + q - i] == s[q],
        follows(s, j, t, (k + j - i) as nat),
    ensures
        number_end(t, (k + p - i) as nat, dot) == k + j - i,
    decreases j - p,
{
    let q = (k + j - i) as nat;
    if p < j {
        assert(t[k + p - i] == s[p as int]);
        if s[p as int] == '.' && !dot {
            lemma_number_follow(s, t, i, k, p + 1, j, true);
        } else {
            lemma_number_follow(s, t, i, k, p + 1, j, dot);
        }
    } else if q < t.len() {
        if j < s.len() && t[q as int] == s[j as int] {
            crate::tokenizer::lemma_number_end_bound(s, j + 1, true);
            crate::tokenizer::lemma_number_end_bound(s, j + 1, dot);
            assert(!(s[j as int] == '.' && !dot) && !is_digit(s[j as int]));
        }
        assert(!(t[q as int] == '.' && !dot) && !is_digit(t[q as int]));
    }
}

proof fn lemma_string_follow(s: Seq<char>, t: Seq<char>, i: nat, k: nat, p: nat, e: nat)
    requires
        i < p <= e < s.len(),
        string_end(s, p) == Some(e),
        k + (e + 1 - i) <= t.len(),
        forall|q: int| p <= q <= e ==> t[k + q - i] == s[q],
    ensures
        string_end(t, (k + p - i) as nat) == Some((k + e - i) as nat),
    decreases e - p,
{
    crate::tokenizer::lemma_string_end(s, p);
    if p < e {
        lemma_string_follow(s, t, i, k, p + 1, e);
    }
}

/// A token read from the stripped text is read as it was.
proof fn lemma_emit_follow(s: Seq<char>, i: nat, t: Seq<char>, k: nat)
    requires
        i < s.len(),
        scan_one(s, i) is Emit,
        ({
            let j = scan_one(s, i)->Emit_1;
            &&& i < j <= s.len()
            &&& k + (j - i) <= t.len()
            &&& t.subrange(k as int, (k + j - i) as int) == s.subrange(i as int, j as int)
            &&& follows(s, j, t, (k + j - i) as nat)
        }),
    ensures
        scan_one(t, k) is Emit,
        scan_one(t, k)->Emit_1 == k + scan_one(s, i)->Emit_1 - i,
        scan_one(t, k)->Emit_0.typ == scan_one(s, i)->Emit_0.typ,
        scan_one(t, k)->Emit_0.literal == scan_one(s, i)->Emit_0.literal,
{
    let j = scan_one(s, i)->Emit_1;
    let m = (j - i) as nat;
    let c = s[i as int];
    assert forall|q: int| i <= q < j implies t[k + q - i] == s[q] by {
        assert(t.subrange(k as int, (k + j - i) as int)[q - i] == s.subrange(i as int, j as int)[q - i]);
    }
    assert(t[k as int] == c);
    if single_type(c) is Some {
    } else if pair_type(c, false) is Some {
    } else if c == '/' {
    } else if c == '"' {
        crate::tokenizer::lemma_string_end(s, i + 1);
        let e = string_end(s, i + 1)->Some_0;
        lemma_string_follow(s, t, i, k, i + 1, e);
        assert(t.subrange(k + 1 as int, (k + e - i) as int) =~= s.subrange(i + 1 as int, e as int));
    } else if is_digit(c) {
        crate::tokenizer::lemma_number_end_bound(s, i + 1, false);
        lemma_number_follow(s, t, i, k, i + 1, j, false);
    } else {
        crate::tokenizer::lemma_ident_end(s, i + 1);
        lemma_ident_follow(s, t, i, k, i + 1, j);
    }
}

/// The step of `lemma_strip` over a token.
proof fn lemma_strip_emit(s: Seq<char>, i: nat, t: Seq<char>, k: nat)
    requires
        i < s.len(),
        k <= t.len(),
        scan_one(s, i) is Emit,
        i < scan_one(s, i)->Emit_1 <= s.len(),
        t.subrange(k as int, t.len() as int) == strip_from(s, i),
        lex_from(s, i) is Ok,
    ensures
        ({
            let j = scan_one(s, i)->Emit_1;
            &&& k + (j - i) <= t.len()
            &&& t.subrange((k + j - i) as int, t.len() as int) == strip_from(s, j)
            &&& lex_from(s, j) is Ok
            &&& scan_one(t, k) is Emit
            &&& scan_one(t, k)->Emit_1 == k + j - i
            &&& scan_one(t, k)->Emit_0.typ == scan_one(s, i)->Emit_0.typ
            &&& scan_one(t, k)->Emit_0.literal == scan_one(s, i)->Emit_0.literal
        }),
{
    let tok = scan_one(s, i)->Emit_0;
    let j = scan_one(s, i)->Emit_1;
    let m = (j - i) as nat;
    let h = strip_from(s, j);
    let sub = t.subrange(k as int, t.len() as int);
    assert(sub == tok.lexeme + h);
    assert(tok.lexeme == s.subrange(i as int, j as int));
    assert(t.subrange(k as int, (k + m) as int) =~= sub.subrange(0, m as int));
    assert(sub.subrange(0, m as int) =~= tok.lexeme);
    assert(sub.subrange(m as int, sub.len() as int) =~= h);
    assert(t.subrange((k + m) as int, t.len() as int) =~= sub.subrange(m as int, sub.len() as int));
    if h.len() > 0 {
        lemma_strip_head(s, j);
        assert(t[(k + m) as int] == h[0]);
    }
    lemma_emit_follow(s, i, t, k);
}

/// The step of `lemma_strip` over white space.
proof fn lemma_strip_space(s: Seq<char>, i: nat, t: Seq<char>, k: nat)
    requires
        i < s.len(),
        k <= t.len(),
        scan_one(s, i) is Skip,
        i < scan_one(s, i)->Skip_0 <= s.len(),
        s[i as int] != '/',
        t.subrange(k as int, t.len() as int) == strip_from(s, i),
    ensures
        scan_one(s, i)->Skip_0 == i + 1,
        k < t.len(),
        scan_one(t, k) == Scan::Skip(k + 1),
        t.subrange(k + 1 as int, t.len() as int) == strip_from(s, i + 1),
{
    let j = scan_one(s, i)->Skip_0;
    assert(j == i + 1);
    assert(strip_from(s, i) == seq![s[i as int]] + strip_from(s, j));
    let sub = t.subrange(k as int, t.len() as int);
    assert(k < t.len());
    assert(t[k as int] == sub[0]);
    assert(sub.subrange(1, sub.len() as int) =~= strip_from(s, j));
    assert(t.subrange(k + 1 as int, t.len() as int) =~= sub.subrange(1, sub.len() as int));
}

proof fn lemma_strip(s: Seq<char>, i: nat, t: Seq<char>, k: nat)
    requires
        i <= s.len(),
        k <= t.len(),
        t.subrange(k as int, t.len() as int) == strip_from(s, i),
        lex_from(s, i) is Ok,
    ensures
        lex_from(t, k) is Ok,
        kinds(lex_from(t, k)->Ok_0) == kinds(lex_from(s, i)->Ok_0),
    decreases s.len() - i,
{
    if i >= s.len() {
        assert(t.subrange(k as int, t.len() as int).len() == 0);
        assert(kinds(seq![]) =~= seq![]);
        return;
    }
    match scan_one(s, i) {
        Scan::Skip(j) => {
            if !(i < j <= s.len()) {
                assert(t.subrange(k as int, t.len() as int).len() == 0);
                assert(k == t.len());
                assert(kinds(seq![]) =~= seq![]);
            } else if s[i as int] == '/' {
                lemma_strip(s, j, t, k);
                assert(lex_from(s, i) == lex_from(s, j));
            } else {
                lemma_strip_space(s, i, t, k);
                lemma_strip(s, j, t, k + 1);
                assert(lex_from(s, i) == lex_from(s, j));
                assert(lex_from(t, k) == lex_from(t, k + 1));
            }
        },
        Scan::Emit(tok, j) => {
            if !(i < j <= s.len()) {
                assert(t.subrange(k as int, t.len() as int).len() == 0);
                assert(k == t.len());
                assert(kinds(seq![]) =~= seq![]);
                return;
            }
            lemma_strip_emit(s, i, t, k);
            let m = (j - i) as nat;
            let tok2 = scan_one(t, k)->Emit_0;
            lemma_strip(s, j, t, k + m);
            let r1 = lex_from(s, j)->Ok_0;
            let r2 = lex_from(t, k + m)->Ok_0;
            assert(lex_from(t, k) == Ok::<Seq<TokenView>, crate::tokenizer::TokenizeError>(seq![tok2] + r2));
            assert(lex_from(s, i) == Ok::<Seq<TokenView>, crate::tokenizer::TokenizeError>(seq![tok] + r1));
            assert(kinds(seq![tok2] + r2) =~= seq![(tok2.typ, tok2.literal)] + kinds(r2));
            assert(kinds(seq![tok] + r1) =~= seq![(tok.typ, tok.literal)] + kinds(r1));
        },
        Scan::Fail(_) => {},
    }
}

/// Lexing is idempotent: the tokens of a text, written out again with the
/// white space between them as it was and the comments left out, read as
/// tokens of the same types with the same literal values.
pub proof fn law_relexing_the_text(s: Seq<char>)
    requires
        lex(s) is Ok,
    ensures
        lex(strip_from(s, 0)) is Ok,
        kinds(lex(strip_from(s, 0))->Ok_0) == kinds(lex(s)->Ok_0),
{
    let t = strip_from(s, 0);
    assert(t.subrange(0, t.len() as int) =~= t);
    lemma_strip(s, 0, t, 0);
}

} // verus!
