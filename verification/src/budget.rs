//! The step budget only ever cuts a run short: a run that does not end
//! with the step-limit error gives the same final state and result with
//! any larger budget.
use vstd::prelude::*;

use crate::ast::{Opcode, SExpr, SStmt};
use crate::semantics::{
    assign_var, define_all, enter_scope, exprs_from, for_condition, for_step, leave_scope, sem_array, sem_assign,
    sem_assign_index, sem_block, sem_body, sem_expr, sem_exprs, sem_for, sem_for_stmt, sem_if, sem_index,
    sem_len_call, sem_neg, sem_not, sem_op, sem_print, sem_return, sem_stmt, sem_stmts, sem_user_call, sem_while,
    step_limit_message, stmts_from, Flow, SFunc, State,
};
use crate::value::{int_of, truthy, Val};

verus! {

/// The result of running out of steps.
pub open spec fn out_of_steps() -> Flow {
    Flow::Fail(step_limit_message())
}


proof fn mono_expr(f: nat, g: nat, src: Seq<u8>, st: State, e: SExpr)
    requires
        f <= g,
        sem_expr(f, src, st, e).1 != out_of_steps(),
    ensures
        sem_expr(g, src, st, e) == sem_expr(f, src, st, e),
    decreases f, 1nat,
{
    let a = (f - 1) as nat;
    let b = (g - 1) as nat;
    match e {
        SExpr::Op(op, l, r) => mono_op(a, b, src, st, op, *l, *r),
        SExpr::Not(x) => mono_not(a, b, src, st, *x),
        SExpr::Neg(x) => mono_neg(a, b, src, st, *x),
        SExpr::Call(name, args) => {
            if name == "len"@ {
                mono_len_call(a, b, src, st, args);
            } else {
                mono_user_call(a, b, src, st, name, args);
            }
        },
        SExpr::ArrayLit(items) => mono_array(a, b, src, st, items),
        SExpr::Index(x, i) => mono_index(a, b, src, st, *x, *i),
        _ => {},
    }
}

proof fn mono_op(f: nat, g: nat, src: Seq<u8>, st: State, op: Opcode, l: SExpr, r: SExpr)
    requires
        f <= g,
        sem_op(f, src, st, op, l, r).1 != out_of_steps(),
    ensures
        sem_op(g, src, st, op, l, r) == sem_op(f, src, st, op, l, r),
    decreases f, 2nat,
{
    let (s1, a) = sem_expr(f, src, st, l);
    mono_expr(f, g, src, st, l);
    match a {
        Flow::Normal(lv) => {
            let (s2, b) = sem_expr(f, src, s1, r);
            if b != out_of_steps() {
                mono_expr(f, g, src, s1, r);
            }
        },
        _ => {},
    }
}

proof fn mono_not(f: nat, g: nat, src: Seq<u8>, st: State, x: SExpr)
    requires
        f <= g,
        sem_not(f, src, st, x).1 != out_of_steps(),
    ensures
        sem_not(g, src, st, x) == sem_not(f, src, st, x),
    decreases f, 2nat,
{
    mono_expr(f, g, src, st, x);
}

proof fn mono_neg(f: nat, g: nat, src: Seq<u8>, st: State, x: SExpr)
    requires
        f <= g,
        sem_neg(f, src, st, x).1 != out_of_steps(),
    ensures
        sem_neg(g, src, st, x) == sem_neg(f, src, st, x),
    decreases f, 2nat,
{
    mono_expr(f, g, src, st, x);
}

proof fn mono_len_call(f: nat, g: nat, src: Seq<u8>, st: State, args: Seq<SExpr>)
    requires
        f <= g,
        sem_len_call(f, src, st, args).1 != out_of_steps(),
    ensures
        sem_len_call(g, src, st, args) == sem_len_call(f, src, st, args),
    decreases f, 2nat,
{
    if args.len() == 1 {
        let (s1, a) = sem_expr(f, src, st, args[0]);
        match a {
            Flow::Normal(v) => {},
            _ => {},
        }
        mono_expr(f, g, src, st, args[0]);
    }
}

proof fn mono_user_call(f: nat, g: nat, src: Seq<u8>, st: State, name: Seq<char>, args: Seq<SExpr>)
    requires
        f <= g,
        sem_user_call(f, src, st, name, args).1 != out_of_steps(),
    ensures
        sem_user_call(g, src, st, name, args) == sem_user_call(f, src, st, name, args),
    decreases f, 3nat,
{
    match crate::environment::frame_get(st.funcs, name) {
        None => {},
        Some(func) => {
            if args.len() == func.params.len() {
                let (s1, r) = sem_exprs(f, src, st, args);
                mono_exprs(f, g, src, st, args);
                match r {
                    Ok(vs) => {
                        mono_body(f, g, src, s1, func, vs);
                    },
                    Err(_) => {},
                }
            }
        },
    }
}

proof fn mono_body(f: nat, g: nat, src: Seq<u8>, s1: State, func: SFunc, vs: Seq<Val>)
    requires
        f <= g,
        sem_body(f, src, s1, func, vs).1 != out_of_steps(),
    ensures
        sem_body(g, src, s1, func, vs) == sem_body(f, src, s1, func, vs),
    decreases f, 2nat,
{
    let entered = enter_scope(s1);
    let bound = State { env: define_all(entered.env, func.params, vs), ..entered };
    mono_stmts(f, g, src, bound, func.body);
}

proof fn mono_array(f: nat, g: nat, src: Seq<u8>, st: State, items: Seq<SExpr>)
    requires
        f <= g,
        sem_array(f, src, st, items).1 != out_of_steps(),
    ensures
        sem_array(g, src, st, items) == sem_array(f, src, st, items),
    decreases f, 2nat,
{
    mono_exprs(f, g, src, st, items);
}

proof fn mono_index(f: nat, g: nat, src: Seq<u8>, st: State, a: SExpr, i: SExpr)
    requires
        f <= g,
        sem_index(f, src, st, a, i).1 != out_of_steps(),
    ensures
        sem_index(g, src, st, a, i) == sem_index(f, src, st, a, i),
    decreases f, 2nat,
{
    let (s1, x) = sem_expr(f, src, st, a);
    mono_expr(f, g, src, st, a);
    match x {
        Flow::Normal(av) => {
            mono_expr(f, g, src, s1, i);
        },
        _ => {},
    }
}

proof fn mono_exprs(f: nat, g: nat, src: Seq<u8>, st: State, es: Seq<SExpr>)
    requires
        f <= g,
        sem_exprs(f, src, st, es).1 != Err::<Seq<Val>, Flow>(out_of_steps()),
    ensures
        sem_exprs(g, src, st, es) == sem_exprs(f, src, st, es),
    decreases f, 1nat,
{
    mono_exprs_from((f - 1) as nat, (g - 1) as nat, src, st, es, Seq::empty());
}

proof fn mono_exprs_from(f: nat, g: nat, src: Seq<u8>, st: State, es: Seq<SExpr>, done: Seq<Val>)
    requires
        f <= g,
        exprs_from(f, src, st, es, done).1 != Err::<Seq<Val>, Flow>(out_of_steps()),
    ensures
        exprs_from(g, src, st, es, done) == exprs_from(f, src, st, es, done),
    decreases f, es.len() + 1,
{
    if es.len() > 0 {
        let (s1, a) = sem_expr(f, src, st, es[0]);
        mono_expr(f, g, src, st, es[0]);
        match a {
            Flow::Normal(v) => {
                mono_exprs_from(f, g, src, s1, es.drop_first(), done.push(v));
            },
            _ => {},
        }
    }
}

proof fn mono_stmt(f: nat, g: nat, src: Seq<u8>, st: State, s: SStmt)
    requires
        f <= g,
        sem_stmt(f, src, st, s).1 != out_of_steps(),
    ensures
        sem_stmt(g, src, st, s) == sem_stmt(f, src, st, s),
    decreases f, 1nat,
{
    let a = (f - 1) as nat;
    let b = (g - 1) as nat;
    match s {
        SStmt::Assign(lhs, rhs) => mono_assign(a, b, src, st, lhs, rhs),
        SStmt::Expr(e) => mono_expr(a, b, src, st, e),
        SStmt::If(c, t) => mono_if(a, b, src, st, c, t, Seq::empty(), false),
        SStmt::IfElse(c, t, e) => mono_if(a, b, src, st, c, t, e, true),
        SStmt::While(c, body) => mono_while(a, b, src, st, c, body),
        SStmt::Block(body) => mono_block(a, b, src, st, body),
        SStmt::Print(e) => mono_print(a, b, src, st, e),
        SStmt::For(name, start, end, body) => mono_for_stmt(a, b, src, st, name, start, end, body),
        SStmt::Return(x) => match x {
            None => {},
            Some(e) => mono_return(a, b, src, st, e),
        },
        _ => {},
    }
}

proof fn mono_assign(f: nat, g: nat, src: Seq<u8>, st: State, lhs: SExpr, rhs: SExpr)
    requires
        f <= g,
        sem_assign(f, src, st, lhs, rhs).1 != out_of_steps(),
    ensures
        sem_assign(g, src, st, lhs, rhs) == sem_assign(f, src, st, lhs, rhs),
    decreases f, 3nat,
{
    let (s1, a) = sem_expr(f, src, st, rhs);
    mono_expr(f, g, src, st, rhs);
    match a {
        Flow::Normal(v) => match lhs {
            SExpr::Index(ae, ie) => {
                mono_assign_index(f, g, src, s1, *ae, *ie, v);
            },
            _ => {},
        },
        _ => {},
    }
}

proof fn mono_assign_index(f: nat, g: nat, src: Seq<u8>, s1: State, ae: SExpr, ie: SExpr, v: Val)
    requires
        f <= g,
        sem_assign_index(f, src, s1, ae, ie, v).1 != out_of_steps(),
    ensures
        sem_assign_index(g, src, s1, ae, ie, v) == sem_assign_index(f, src, s1, ae, ie, v),
    decreases f, 2nat,
{
    let (s2, x) = sem_expr(f, src, s1, ae);
    mono_expr(f, g, src, s1, ae);
    match x {
        Flow::Normal(av) => {
            mono_expr(f, g, src, s2, ie);
        },
        _ => {},
    }
}

proof fn mono_if(f: nat, g: nat, src: Seq<u8>, st: State, c: SExpr, t: Seq<SStmt>, e: Seq<SStmt>, has_else: bool)
    requires
        f <= g,
        sem_if(f, src, st, c, t, e, has_else).1 != out_of_steps(),
    ensures
        sem_if(g, src, st, c, t, e, has_else) == sem_if(f, src, st, c, t, e, has_else),
    decreases f, 2nat,
{
    let (s1, a) = sem_expr(f, src, st, c);
    mono_expr(f, g, src, st, c);
    match a {
        Flow::Normal(v) => {
            if truthy(v) || has_else {
                let b = if truthy(v) {
                    t
                } else {
                    e
                };
                mono_stmts(f, g, src, s1, b);
            }
        },
        _ => {},
    }
}

proof fn mono_block(f: nat, g: nat, src: Seq<u8>, st: State, b: Seq<SStmt>)
    requires
        f <= g,
        sem_block(f, src, st, b).1 != out_of_steps(),
    ensures
        sem_block(g, src, st, b) == sem_block(f, src, st, b),
    decreases f, 2nat,
{
    mono_stmts(f, g, src, enter_scope(st), b);
}

proof fn mono_print(f: nat, g: nat, src: Seq<u8>, st: State, e: SExpr)
    requires
        f <= g,
        sem_print(f, src, st, e).1 != out_of_steps(),
    ensures
        sem_print(g, src, st, e) == sem_print(f, src, st, e),
    decreases f, 2nat,
{
    mono_expr(f, g, src, st, e);
}

proof fn mono_return(f: nat, g: nat, src: Seq<u8>, st: State, e: SExpr)
    requires
        f <= g,
        sem_return(f, src, st, e).1 != out_of_steps(),
    ensures
        sem_return(g, src, st, e) == sem_return(f, src, st, e),
    decreases f, 2nat,
{
    mono_expr(f, g, src, st, e);
}

proof fn mono_for_stmt(f: nat, g: nat, src: Seq<u8>, st: State, name: Seq<char>, start: SExpr, end: SExpr, body: Seq<SStmt>)
    requires
        f <= g,
        sem_for_stmt(f, src, st, name, start, end, body).1 != out_of_steps(),
    ensures
        sem_for_stmt(g, src, st, name, start, end, body) == sem_for_stmt(f, src, st, name, start, end, body),
    decreases f, 2nat,
{
    let (s1, a) = sem_expr(f, src, st, start);
    mono_expr(f, g, src, st, start);
    match a {
        Flow::Normal(v) => match int_of(v) {
            Some(n) => {
                let entered = enter_scope(s1);
                let init = State { env: crate::environment::env_define(entered.env, name, Val::Int(n)), ..entered };
                mono_for(f, g, src, init, name, end, body);
            },
            None => {},
        },
        _ => {},
    }
}

proof fn mono_while(f: nat, g: nat, src: Seq<u8>, st: State, c: SExpr, b: Seq<SStmt>)
    requires
        f <= g,
        sem_while(f, src, st, c, b).1 != out_of_steps(),
    ensures
        sem_while(g, src, st, c, b) == sem_while(f, src, st, c, b),
    decreases f, 1nat,
{
    let f1 = (f - 1) as nat;
    let g1 = (g - 1) as nat;
    let (s1, a) = sem_expr(f1, src, st, c);
    mono_expr(f1, g1, src, st, c);
    match a {
        Flow::Normal(v) => {
            if truthy(v) {
                let (s2, r) = sem_stmts(f1, src, s1, b);
                mono_stmts(f1, g1, src, s1, b);
                match r {
                    Flow::Normal(_) => {
                        mono_while(f1, g1, src, s2, c, b);
                    },
                    _ => {},
                }
            }
        },
        _ => {},
    }
}

proof fn mono_for(f: nat, g: nat, src: Seq<u8>, st: State, name: Seq<char>, end: SExpr, body: Seq<SStmt>)
    requires
        f <= g,
        sem_for(f, src, st, name, end, body).1 != out_of_steps(),
    ensures
        sem_for(g, src, st, name, end, body) == sem_for(f, src, st, name, end, body),
    decreases f, 1nat,
{
    let f1 = (f - 1) as nat;
    let g1 = (g - 1) as nat;
    let (s1, a) = sem_expr(f1, src, st, for_condition(name, end));
    mono_expr(f1, g1, src, st, for_condition(name, end));
    match a {
        Flow::Normal(v) => {
            if truthy(v) {
                let (s2, r) = sem_stmts(f1, src, s1, body);
                mono_stmts(f1, g1, src, s1, body);
                match r {
                    Flow::Normal(_) => {
                        let (s3, u) = sem_stmt(f1, src, s2, for_step(name));
                        mono_stmt(f1, g1, src, s2, for_step(name));
                        match u {
                            Flow::Normal(_) => {
                                mono_for(f1, g1, src, s3, name, end, body);
                            },
                            _ => {},
                        }
                    },
                    _ => {},
                }
            }
        },
        _ => {},
    }
}

proof fn mono_stmts(f: nat, g: nat, src: Seq<u8>, st: State, ss: Seq<SStmt>)
    requires
        f <= g,
        sem_stmts(f, src, st, ss).1 != out_of_steps(),
    ensures
        sem_stmts(g, src, st, ss) == sem_stmts(f, src, st, ss),
    decreases f, 1nat,
{
    mono_stmts_from((f - 1) as nat, (g - 1) as nat, src, st, ss, Val::Null);
}

proof fn mono_stmts_from(f: nat, g: nat, src: Seq<u8>, st: State, ss: Seq<SStmt>, last: Val)
    requires
        f <= g,
        stmts_from(f, src, st, ss, last).1 != out_of_steps(),
    ensures
        stmts_from(g, src, st, ss, last) == stmts_from(f, src, st, ss, last),
    decreases f, ss.len() + 1,
{
    if ss.len() > 0 {
        let (s1, r) = sem_stmt(f, src, st, ss[0]);
        mono_stmt(f, g, src, st, ss[0]);
        match r {
            Flow::Normal(v) => {
                mono_stmts_from(f, g, src, s1, ss.drop_first(), v);
            },
            _ => {},
        }
    }
}

/// A run of statements that does not end with the step-limit error ends the
/// same way, in the same state, with any larger step budget.
pub proof fn law_budget_only_cuts_short(fuel: nat, more: nat, src: Seq<u8>, st: State, ss: Seq<SStmt>)
    requires
        fuel <= more,
        sem_stmts(fuel, src, st, ss).1 != out_of_steps(),
    ensures
        sem_stmts(more, src, st, ss) == sem_stmts(fuel, src, st, ss),
{
    mono_stmts(fuel, more, src, st, ss);
}

/// The same for the evaluation of one expression.
pub proof fn law_budget_only_cuts_short_expr(fuel: nat, more: nat, src: Seq<u8>, st: State, e: SExpr)
    requires
        fuel <= more,
        sem_expr(fuel, src, st, e).1 != out_of_steps(),
    ensures
        sem_expr(more, src, st, e) == sem_expr(fuel, src, st, e),
{
    mono_expr(fuel, more, src, st, e);
}

/// The same for one statement.
pub proof fn law_budget_only_cuts_short_stmt(fuel: nat, more: nat, src: Seq<u8>, st: State, s: SStmt)
    requires
        fuel <= more,
        sem_stmt(fuel, src, st, s).1 != out_of_steps(),
    ensures
        sem_stmt(more, src, st, s) == sem_stmt(fuel, src, st, s),
{
    mono_stmt(fuel, more, src, st, s);
}

} // verus!
