//! What evaluation does to scopes, names, functions and output, over all
//! programs: scopes are never added or removed overall, a name is never
//! removed from a scope and only the innermost scope gains names, blocks
//! and calls leave every scope with the names it had, expressions leave
//! the function table as it was, and printed output is only ever appended.
use vstd::prelude::*;

use crate::ast::{Opcode, SExpr, SStmt};
use crate::environment::{
    env_assign, env_define, frame_index, frame_set, lemma_frame_set_get, Frame,
};
use crate::semantics::{
    assign_var, default_value, define_all, enter_scope, exprs_from, for_condition, for_step, leave_scope,
    sem_array, sem_assign, sem_assign_index, sem_block, sem_body, sem_expr, sem_exprs, sem_for, sem_for_stmt,
    sem_if, sem_index, sem_len_call, sem_neg, sem_not, sem_op, sem_print, sem_return, sem_stmt, sem_stmts,
    sem_user_call, sem_while, stmts_from, Flow, SFunc, State,
};
use crate::value::Val;

verus! {

/// Two scopes hold the same names.
pub open spec fn same_names(a: Frame<Val>, b: Frame<Val>) -> bool {
    forall|n: Seq<char>| #[trigger] frame_index(a, n) is Some <==> frame_index(b, n) is Some
}

/// Every name of scope `a` is also in scope `b`.
pub open spec fn names_grow(a: Frame<Val>, b: Frame<Val>) -> bool {
    forall|n: Seq<char>| #[trigger] frame_index(a, n) is Some ==> frame_index(b, n) is Some
}

/// Two chains of scopes have the same number of scopes, each with the same
/// names.
pub open spec fn keeps_scopes(a: Seq<Frame<Val>>, b: Seq<Frame<Val>>) -> bool {
    &&& a.len() == b.len()
    &&& forall|i: int| 0 <= i < a.len() ==> same_names(#[trigger] a[i], b[i])
}

/// `b` has the scopes of `a`, each with the same names except the innermost,
/// which may have gained names.
pub open spec fn extends_scopes(a: Seq<Frame<Val>>, b: Seq<Frame<Val>>) -> bool {
    &&& a.len() == b.len()
    &&& a.len() >= 1
    &&& forall|i: int| 0 <= i < a.len() - 1 ==> same_names(#[trigger] a[i], b[i])
    &&& names_grow(a.last(), b.last())
}

/// `a` is a beginning of `b`.
pub open spec fn prefix_of(a: Seq<char>, b: Seq<char>) -> bool {
    &&& a.len() <= b.len()
    &&& forall|i: int| 0 <= i < a.len() ==> a[i] == #[trigger] b[i]
}

/// What an expression may do to the state: the same scopes with the same
/// names, the same functions, and output that only grows.
pub open spec fn expr_effect(a: State, b: State) -> bool {
    &&& keeps_scopes(a.env, b.env)
    &&& b.funcs == a.funcs
    &&& prefix_of(a.out, b.out)
}

/// What a statement may do to the state: the same scopes, names added only
/// to the innermost one, and output that only grows.
pub open spec fn stmt_effect(a: State, b: State) -> bool {
    &&& extends_scopes(a.env, b.env)
    &&& prefix_of(a.out, b.out)
}

proof fn lemma_expr_effect_trans(a: State, b: State, c: State)
    requires
        expr_effect(a, b),
        expr_effect(b, c),
    ensures
        expr_effect(a, c),
{
    assert forall|i: int| 0 <= i < a.env.len() implies same_names(#[trigger] a.env[i], c.env[i]) by {
        assert(same_names(a.env[i], b.env[i]));
        assert(same_names(b.env[i], c.env[i]));
    }
    assert forall|i: int| 0 <= i < a.out.len() implies a.out[i] == #[trigger] c.out[i] by {
        assert(a.out[i] == b.out[i]);
    }
}

proof fn lemma_expr_to_stmt_effect(a: State, b: State)
    requires
        expr_effect(a, b),
        a.env.len() >= 1,
    ensures
        stmt_effect(a, b),
{
    assert(same_names(a.env[a.env.len() - 1], b.env[a.env.len() - 1]));
}

proof fn lemma_stmt_effect_trans(a: State, b: State, c: State)
    requires
        stmt_effect(a, b),
        stmt_effect(b, c),
    ensures
        stmt_effect(a, c),
{
    assert forall|i: int| 0 <= i < a.env.len() - 1 implies same_names(#[trigger] a.env[i], c.env[i]) by {
        assert(same_names(a.env[i], b.env[i]));
        assert(same_names(b.env[i], c.env[i]));
    }
    assert forall|n: Seq<char>| #[trigger] frame_index(a.env.last(), n) is Some implies frame_index(c.env.last(), n) is Some by {
        assert(frame_index(b.env.last(), n) is Some);
    }
    assert forall|i: int| 0 <= i < a.out.len() implies a.out[i] == #[trigger] c.out[i] by {
        assert(a.out[i] == b.out[i]);
    }
}

proof fn lemma_stmt_effect_refl(a: State)
    requires
        a.env.len() >= 1,
    ensures
        stmt_effect(a, a),
{
}

/// Defining a name only adds it to the innermost scope.
pub proof fn lemma_define_extends(sc: Seq<Frame<Val>>, name: Seq<char>, v: Val)
    requires
        sc.len() >= 1,
    ensures
        extends_scopes(sc, env_define(sc, name, v)),
{
    let d = env_define(sc, name, v);
    assert forall|i: int| 0 <= i < sc.len() - 1 implies same_names(#[trigger] sc[i], d[i]) by {
        assert(d[i] == sc[i]);
    }
    assert forall|n: Seq<char>| #[trigger] frame_index(sc.last(), n) is Some implies frame_index(d.last(), n) is Some by {
        lemma_frame_set_get(sc.last(), name, v, n);
    }
}

proof fn lemma_define_all_extends(sc: Seq<Frame<Val>>, names: Seq<Seq<char>>, vs: Seq<Val>)
    requires
        sc.len() >= 1,
    ensures
        extends_scopes(sc, define_all(sc, names, vs)),
    decreases names.len(),
{
    if names.len() == 0 || vs.len() == 0 {
        assert(extends_scopes(sc, sc));
    } else {
        let d = env_define(sc, names[0], vs[0]);
        lemma_define_extends(sc, names[0], vs[0]);
        lemma_define_all_extends(d, names.drop_first(), vs.drop_first());
        let st1 = State { env: sc, funcs: Seq::empty(), out: Seq::empty() };
        let st2 = State { env: d, funcs: Seq::empty(), out: Seq::empty() };
        let st3 = State { env: define_all(d, names.drop_first(), vs.drop_first()), funcs: Seq::empty(), out: Seq::empty() };
        lemma_stmt_effect_trans(st1, st2, st3);
    }
}

/// An assignment keeps every scope's names.
pub proof fn lemma_assign_keeps(sc: Seq<Frame<Val>>, name: Seq<char>, v: Val)
    ensures
        env_assign(sc, name, v) matches Some(sc2) ==> keeps_scopes(sc, sc2),
    decreases sc.len(),
{
    if sc.len() > 0 {
        if frame_index(sc.last(), name) is Some {
            let sc2 = sc.update(sc.len() - 1, frame_set(sc.last(), name, v));
            assert forall|i: int| 0 <= i < sc.len() implies same_names(#[trigger] sc[i], sc2[i]) by {
                if i == sc.len() - 1 {
                    assert forall|n: Seq<char>| #[trigger] frame_index(sc[i], n) is Some <==> frame_index(sc2[i], n) is Some by {
                        lemma_frame_set_get(sc.last(), name, v, n);
                    }
                }
            }
        } else {
            lemma_assign_keeps(sc.drop_last(), name, v);
            match env_assign(sc.drop_last(), name, v) {
                Some(inner) => {
                    let sc2 = inner.push(sc.last());
                    assert forall|i: int| 0 <= i < sc.len() implies same_names(#[trigger] sc[i], sc2[i]) by {
                        if i < sc.len() - 1 {
                            assert(sc.drop_last()[i] == sc[i]);
                            assert(same_names(sc.drop_last()[i], inner[i]));
                        }
                    }
                },
                None => {},
            }
        }
    }
}

proof fn lemma_assign_var(st: State, name: Seq<char>, v: Val, result: Val)
    ensures
        expr_effect(st, assign_var(st, name, v, result).0),
{
    lemma_assign_keeps(st.env, name, v);
}

/// Leaving a scope entered from `s1`, after statements ran inside it,
/// restores `s1`'s scopes, names and functions.
proof fn lemma_leave(s1: State, inner: State)
    requires
        s1.env.len() >= 1,
        stmt_effect(enter_scope(s1), inner),
    ensures
        expr_effect(s1, leave_scope(s1, inner)),
{
    let e = enter_scope(s1);
    let l = leave_scope(s1, inner);
    assert(l.env == inner.env.drop_last());
    assert forall|i: int| 0 <= i < s1.env.len() implies same_names(#[trigger] s1.env[i], l.env[i]) by {
        assert(e.env[i] == s1.env[i]);
        assert(same_names(e.env[i], inner.env[i]));
    }
}

proof fn lemma_expr(fuel: nat, src: Seq<u8>, st: State, e: SExpr)
    requires
        st.env.len() >= 1,
    ensures
        expr_effect(st, sem_expr(fuel, src, st, e).0),
    decreases fuel, 1nat,
{
    if fuel > 0 {
        let f = (fuel - 1) as nat;
        match e {
            SExpr::Op(op, l, r) => lemma_op(f, src, st, op, *l, *r),
            SExpr::Not(x) => lemma_not(f, src, st, *x),
            SExpr::Neg(x) => lemma_neg(f, src, st, *x),
            SExpr::Call(name, args) => {
                if name == "len"@ {
                    lemma_len_call(f, src, st, args);
                } else {
                    lemma_user_call(f, src, st, name, args);
                }
            },
            SExpr::ArrayLit(items) => lemma_array(f, src, st, items),
            SExpr::Index(a, i) => lemma_index(f, src, st, *a, *i),
            _ => {},
        }
    }
}

proof fn lemma_op(f: nat, src: Seq<u8>, st: State, op: Opcode, l: SExpr, r: SExpr)
    requires
        st.env.len() >= 1,
    ensures
        expr_effect(st, sem_op(f, src, st, op, l, r).0),
    decreases f, 2nat,
{
    let (s1, a) = sem_expr(f, src, st, l);
    lemma_expr(f, src, st, l);
    let (s2, b) = sem_expr(f, src, s1, r);
    lemma_expr(f, src, s1, r);
    lemma_expr_effect_trans(st, s1, s2);
}

proof fn lemma_not(f: nat, src: Seq<u8>, st: State, x: SExpr)
    requires
        st.env.len() >= 1,
    ensures
        expr_effect(st, sem_not(f, src, st, x).0),
    decreases f, 2nat,
{
    lemma_expr(f, src, st, x);
}

proof fn lemma_neg(f: nat, src: Seq<u8>, st: State, x: SExpr)
    requires
        st.env.len() >= 1,
    ensures
        expr_effect(st, sem_neg(f, src, st, x).0),
    decreases f, 2nat,
{
    lemma_expr(f, src, st, x);
}

proof fn lemma_len_call(f: nat, src: Seq<u8>, st: State, args: Seq<SExpr>)
    requires
        st.env.len() >= 1,
    ensures
        expr_effect(st, sem_len_call(f, src, st, args).0),
    decreases f, 2nat,
{
    if args.len() == 1 {
        lemma_expr(f, src, st, args[0]);
    }
}

proof fn lemma_user_call(f: nat, src: Seq<u8>, st: State, name: Seq<char>, args: Seq<SExpr>)
    requires
        st.env.len() >= 1,
    ensures
        expr_effect(st, sem_user_call(f, src, st, name, args).0),
    decreases f, 3nat,
{
    match crate::environment::frame_get(st.funcs, name) {
        None => {},
        Some(func) => {
            if args.len() == func.params.len() {
                let (s1, r) = sem_exprs(f, src, st, args);
                lemma_exprs(f, src, st, args);
                match r {
                    Ok(vs) => {
                        lemma_body(f, src, s1, func, vs);
                        lemma_expr_effect_trans(st, s1, sem_body(f, src, s1, func, vs).0);
                    },
                    Err(_) => {},
                }
            }
        },
    }
}

proof fn lemma_body(f: nat, src: Seq<u8>, s1: State, func: SFunc, vs: Seq<Val>)
    requires
        s1.env.len() >= 1,
    ensures
        expr_effect(s1, sem_body(f, src, s1, func, vs).0),
    decreases f, 2nat,
{
    let entered = enter_scope(s1);
    let bound = State { env: define_all(entered.env, func.params, vs), ..entered };
    lemma_define_all_extends(entered.env, func.params, vs);
    let (s2, res) = sem_stmts(f, src, bound, func.body);
    lemma_stmts(f, src, bound, func.body);
    lemma_stmt_effect_trans(entered, bound, s2);
    lemma_leave(s1, s2);
}

proof fn lemma_array(f: nat, src: Seq<u8>, st: State, items: Seq<SExpr>)
    requires
        st.env.len() >= 1,
    ensures
        expr_effect(st, sem_array(f, src, st, items).0),
    decreases f, 2nat,
{
    lemma_exprs(f, src, st, items);
}

proof fn lemma_index(f: nat, src: Seq<u8>, st: State, a: SExpr, i: SExpr)
    requires
        st.env.len() >= 1,
    ensures
        expr_effect(st, sem_index(f, src, st, a, i).0),
    decreases f, 2nat,
{
    let (s1, x) = sem_expr(f, src, st, a);
    lemma_expr(f, src, st, a);
    let (s2, y) = sem_expr(f, src, s1, i);
    lemma_expr(f, src, s1, i);
    lemma_expr_effect_trans(st, s1, s2);
}

proof fn lemma_exprs(fuel: nat, src: Seq<u8>, st: State, es: Seq<SExpr>)
    requires
        st.env.len() >= 1,
    ensures
        expr_effect(st, sem_exprs(fuel, src, st, es).0),
    decreases fuel, 1nat,
{
    if fuel > 0 {
        lemma_exprs_from((fuel - 1) as nat, src, st, es, Seq::empty());
    }
}

proof fn lemma_exprs_from(f: nat, src: Seq<u8>, st: State, es: Seq<SExpr>, done: Seq<Val>)
    requires
        st.env.len() >= 1,
    ensures
        expr_effect(st, exprs_from(f, src, st, es, done).0),
    decreases f, es.len() + 1,
{
    if es.len() > 0 {
        let (s1, a) = sem_expr(f, src, st, es[0]);
        lemma_expr(f, src, st, es[0]);
        match a {
            Flow::Normal(v) => {
                lemma_exprs_from(f, src, s1, es.drop_first(), done.push(v));
                lemma_expr_effect_trans(st, s1, exprs_from(f, src, s1, es.drop_first(), done.push(v)).0);
            },
            _ => {},
        }
    }
}

proof fn lemma_stmt(fuel: nat, src: Seq<u8>, st: State, s: SStmt)
    requires
        st.env.len() >= 1,
    ensures
        stmt_effect(st, sem_stmt(fuel, src, st, s).0),
    decreases fuel, 1nat,
{
    if fuel == 0 {
        lemma_stmt_effect_refl(st);
    } else {
        let f = (fuel - 1) as nat;
        match s {
            SStmt::Assign(lhs, rhs) => {
                lemma_assign(f, src, st, lhs, rhs);
                lemma_expr_to_stmt_effect(st, sem_assign(f, src, st, lhs, rhs).0);
            },
            SStmt::VarDecl(names, ty) => {
                match default_value(ty) {
                    Some(d) => {
                        lemma_define_all_extends(st.env, names, Seq::new(names.len(), |i: int| d));
                    },
                    None => {},
                }
            },
            SStmt::Expr(e) => {
                lemma_expr(f, src, st, e);
                lemma_expr_to_stmt_effect(st, sem_expr(f, src, st, e).0);
            },
            SStmt::If(c, t) => lemma_if(f, src, st, c, t, Seq::empty(), false),
            SStmt::IfElse(c, t, e) => lemma_if(f, src, st, c, t, e, true),
            SStmt::While(c, b) => lemma_while(f, src, st, c, b),
            SStmt::Block(b) => {
                lemma_block(f, src, st, b);
                lemma_expr_to_stmt_effect(st, sem_block(f, src, st, b).0);
            },
            SStmt::Print(e) => {
                lemma_print(f, src, st, e);
                lemma_expr_to_stmt_effect(st, sem_print(f, src, st, e).0);
            },
            SStmt::For(name, start, end, body) => {
                lemma_for_stmt(f, src, st, name, start, end, body);
                lemma_expr_to_stmt_effect(st, sem_for_stmt(f, src, st, name, start, end, body).0);
            },
            SStmt::FuncDef(..) => {},
            SStmt::Return(x) => {
                match x {
                    None => {},
                    Some(e) => {
                        lemma_expr(f, src, st, e);
                        lemma_expr_to_stmt_effect(st, sem_return(f, src, st, e).0);
                    },
                }
            },
        }
    }
}

proof fn lemma_assign(f: nat, src: Seq<u8>, st: State, lhs: SExpr, rhs: SExpr)
    requires
        st.env.len() >= 1,
    ensures
        expr_effect(st, sem_assign(f, src, st, lhs, rhs).0),
    decreases f, 3nat,
{
    let (s1, a) = sem_expr(f, src, st, rhs);
    lemma_expr(f, src, st, rhs);
    match a {
        Flow::Normal(v) => match lhs {
            SExpr::Id(name, _) => {
                lemma_assign_var(s1, name, v, v);
                lemma_expr_effect_trans(st, s1, assign_var(s1, name, v, v).0);
            },
            SExpr::Index(ae, ie) => {
                lemma_assign_index(f, src, s1, *ae, *ie, v);
                lemma_expr_effect_trans(st, s1, sem_assign_index(f, src, s1, *ae, *ie, v).0);
            },
            _ => {},
        },
        _ => {},
    }
}

proof fn lemma_assign_index(f: nat, src: Seq<u8>, s1: State, ae: SExpr, ie: SExpr, v: Val)
    requires
        s1.env.len() >= 1,
    ensures
        expr_effect(s1, sem_assign_index(f, src, s1, ae, ie, v).0),
    decreases f, 2nat,
{
    let (s2, x) = sem_expr(f, src, s1, ae);
    lemma_expr(f, src, s1, ae);
    let (s3, y) = sem_expr(f, src, s2, ie);
    lemma_expr(f, src, s2, ie);
    lemma_expr_effect_trans(s1, s2, s3);
    match (x, y) {
        (Flow::Normal(av), Flow::Normal(iv)) => {
            match av {
                Val::Arr(items) => {
                    match int_of_val(iv) {
                        Some(k) => {
                            if !(k < 0 || k >= items.len()) {
                                match ae {
                                    SExpr::Id(var, _) => {
                                        let u = Val::Arr(items.update(k as int, v));
                                        lemma_assign_var(s3, var, u, Val::Null);
                                        lemma_expr_effect_trans(s1, s3, assign_var(s3, var, u, Val::Null).0);
                                    },
                                    _ => {},
                                }
                            }
                        },
                        None => {},
                    }
                },
                _ => {},
            }
        },
        _ => {},
    }
}

spec fn int_of_val(v: Val) -> Option<i64> {
    crate::value::int_of(v)
}

proof fn lemma_if(f: nat, src: Seq<u8>, st: State, c: SExpr, t: Seq<SStmt>, e: Seq<SStmt>, has_else: bool)
    requires
        st.env.len() >= 1,
    ensures
        stmt_effect(st, sem_if(f, src, st, c, t, e, has_else).0),
    decreases f, 2nat,
{
    let (s1, a) = sem_expr(f, src, st, c);
    lemma_expr(f, src, st, c);
    lemma_expr_to_stmt_effect(st, s1);
    match a {
        Flow::Normal(v) => {
            if crate::value::truthy(v) || has_else {
                let b = if crate::value::truthy(v) {
                    t
                } else {
                    e
                };
                lemma_stmts(f, src, s1, b);
                lemma_stmt_effect_trans(st, s1, sem_stmts(f, src, s1, b).0);
            }
        },
        _ => {},
    }
}

proof fn lemma_block(f: nat, src: Seq<u8>, st: State, b: Seq<SStmt>)
    requires
        st.env.len() >= 1,
    ensures
        expr_effect(st, sem_block(f, src, st, b).0),
    decreases f, 2nat,
{
    let entered = enter_scope(st);
    lemma_stmts(f, src, entered, b);
    lemma_leave(st, sem_stmts(f, src, entered, b).0);
}

proof fn lemma_print(f: nat, src: Seq<u8>, st: State, e: SExpr)
    requires
        st.env.len() >= 1,
    ensures
        expr_effect(st, sem_print(f, src, st, e).0),
    decreases f, 2nat,
{
    lemma_expr(f, src, st, e);
}

proof fn lemma_for_stmt(f: nat, src: Seq<u8>, st: State, name: Seq<char>, start: SExpr, end: SExpr, body: Seq<SStmt>)
    requires
        st.env.len() >= 1,
    ensures
        expr_effect(st, sem_for_stmt(f, src, st, name, start, end, body).0),
    decreases f, 2nat,
{
    let (s1, a) = sem_expr(f, src, st, start);
    lemma_expr(f, src, st, start);
    match a {
        Flow::Normal(v) => match crate::value::int_of(v) {
            Some(n) => {
                let entered = enter_scope(s1);
                let init = State { env: env_define(entered.env, name, Val::Int(n)), ..entered };
                lemma_define_extends(entered.env, name, Val::Int(n));
                lemma_for(f, src, init, name, end, body);
                let s2 = sem_for(f, src, init, name, end, body).0;
                lemma_stmt_effect_trans(entered, init, s2);
                lemma_leave(s1, s2);
                lemma_expr_effect_trans(st, s1, leave_scope(s1, s2));
            },
            None => {},
        },
        _ => {},
    }
}

proof fn lemma_while(fuel: nat, src: Seq<u8>, st: State, c: SExpr, b: Seq<SStmt>)
    requires
        st.env.len() >= 1,
    ensures
        stmt_effect(st, sem_while(fuel, src, st, c, b).0),
    decreases fuel, 1nat,
{
    if fuel == 0 {
        lemma_stmt_effect_refl(st);
    } else {
        let f = (fuel - 1) as nat;
        let (s1, a) = sem_expr(f, src, st, c);
        lemma_expr(f, src, st, c);
        lemma_expr_to_stmt_effect(st, s1);
        match a {
            Flow::Normal(v) => {
                if crate::value::truthy(v) {
                    let (s2, r) = sem_stmts(f, src, s1, b);
                    lemma_stmts(f, src, s1, b);
                    lemma_stmt_effect_trans(st, s1, s2);
                    match r {
                        Flow::Normal(_) => {
                            lemma_while(f, src, s2, c, b);
                            lemma_stmt_effect_trans(st, s2, sem_while(f, src, s2, c, b).0);
                        },
                        _ => {},
                    }
                }
            },
            _ => {},
        }
    }
}

proof fn lemma_for(fuel: nat, src: Seq<u8>, st: State, name: Seq<char>, end: SExpr, body: Seq<SStmt>)
    requires
        st.env.len() >= 1,
    ensures
        stmt_effect(st, sem_for(fuel, src, st, name, end, body).0),
    decreases fuel, 1nat,
{
    if fuel == 0 {
        lemma_stmt_effect_refl(st);
    } else {
        let f = (fuel - 1) as nat;
        let (s1, a) = sem_expr(f, src, st, for_condition(name, end));
        lemma_expr(f, src, st, for_condition(name, end));
        lemma_expr_to_stmt_effect(st, s1);
        match a {
            Flow::Normal(v) => {
                if crate::value::truthy(v) {
                    let (s2, r) = sem_stmts(f, src, s1, body);
                    lemma_stmts(f, src, s1, body);
                    lemma_stmt_effect_trans(st, s1, s2);
                    match r {
                        Flow::Normal(_) => {
                            let (s3, u) = sem_stmt(f, src, s2, for_step(name));
                            lemma_stmt(f, src, s2, for_step(name));
                            lemma_stmt_effect_trans(st, s2, s3);
                            match u {
                                Flow::Normal(_) => {
                                    lemma_for(f, src, s3, name, end, body);
                                    lemma_stmt_effect_trans(st, s3, sem_for(f, src, s3, name, end, body).0);
                                },
                                _ => {},
                            }
                        },
                        _ => {},
                    }
                }
            },
            _ => {},
        }
    }
}

proof fn lemma_stmts(fuel: nat, src: Seq<u8>, st: State, ss: Seq<SStmt>)
    requires
        st.env.len() >= 1,
    ensures
        stmt_effect(st, sem_stmts(fuel, src, st, ss).0),
    decreases fuel, 1nat,
{
    if fuel == 0 {
        lemma_stmt_effect_refl(st);
    } else {
        lemma_stmts_from((fuel - 1) as nat, src, st, ss, Val::Null);
    }
}

proof fn lemma_stmts_from(f: nat, src: Seq<u8>, st: State, ss: Seq<SStmt>, last: Val)
    requires
        st.env.len() >= 1,
    ensures
        stmt_effect(st, stmts_from(f, src, st, ss, last).0),
    decreases f, ss.len() + 1,
{
    if ss.len() == 0 {
        lemma_stmt_effect_refl(st);
    } else {
        let (s1, r) = sem_stmt(f, src, st, ss[0]);
        lemma_stmt(f, src, st, ss[0]);
        match r {
            Flow::Normal(v) => {
                lemma_stmts_from(f, src, s1, ss.drop_first(), v);
                lemma_stmt_effect_trans(st, s1, stmts_from(f, src, s1, ss.drop_first(), v).0);
            },
            _ => {},
        }
    }
}

/// Running a list of statements keeps every scope, never removes a name
/// from a scope, adds names only to the innermost scope, and only appends
/// to the printed output.
pub proof fn law_statements_extend_scopes(fuel: nat, src: Seq<u8>, st: State, ss: Seq<SStmt>)
    requires
        st.env.len() >= 1,
    ensures
        stmt_effect(st, sem_stmts(fuel, src, st, ss).0),
{
    lemma_stmts(fuel, src, st, ss);
}

/// Evaluating an expression leaves every scope with the names it had and
/// the function table as it was, and only appends to the printed output.
pub proof fn law_expressions_keep_names(fuel: nat, src: Seq<u8>, st: State, e: SExpr)
    requires
        st.env.len() >= 1,
    ensures
        expr_effect(st, sem_expr(fuel, src, st, e).0),
{
    lemma_expr(fuel, src, st, e);
}

/// A block's declarations and function definitions do not outlive it: after
/// the block every scope has exactly the names it had before, and the
/// function table is the one from before the block.
pub proof fn law_block_declarations_stay_inside(fuel: nat, src: Seq<u8>, st: State, b: Seq<SStmt>)
    requires
        st.env.len() >= 1,
    ensures
        expr_effect(st, sem_stmt(fuel, src, st, SStmt::Block(b)).0),
{
    if fuel > 0 {
        lemma_block((fuel - 1) as nat, src, st, b);
    }
}

} // verus!
