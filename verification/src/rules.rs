//! Laws of the language, stated over its semantics: what `and` and `or`,
//! declarations, assignments, blocks, `return`, calls and statement lists
//! do. Each statement or operator spends one step of the budget before its
//! parts run, hence the `f + 1` on the left of each law.
//!
//! The laws named `law_full_budget_*` restate them for the budget that
//! `Evaluator::evaluate`, `execute` and `eval_expr` run with, in terms of
//! what those functions give for the parts on their own. They hold for
//! every part that finishes within one step less than that budget, that
//! is, for every run shorter than 2^64 - 1 steps.
use vstd::prelude::*;

use crate::ast::{Opcode, SExpr, SStmt, Type};
use crate::environment::{
    env_assign, env_define, env_get, frame_get, lemma_frame_set_get, pop_env,
    undefined_variable_message, Frame,
};
use crate::semantics::{
    default_value, define_all, enter_scope, float_message, sem_body, sem_expr, sem_stmt, sem_stmts,
    stmts_from, Flow, SFunc, State,
};
use crate::budget::{
    law_budget_only_cuts_short, law_budget_only_cuts_short_expr, law_budget_only_cuts_short_stmt,
    out_of_steps,
};
use crate::evaluator::MAX_STEPS;
use crate::scoping::{expr_effect, law_block_declarations_stay_inside};
use crate::value::{truthy, Val};

verus! {

/// `and` evaluates its right operand only when the left one is true, and
/// `or` only when the left one is false; when both complete, the result is
/// the boolean that the operands' truth gives.
pub proof fn law_and_or_short_circuit(f: nat, src: Seq<u8>, st: State, l: SExpr, r: SExpr)
    ensures
        ({
            let (s1, a) = sem_expr(f, src, st, l);
            let (s2, b) = sem_expr(f, src, s1, r);
            let right = match b {
                Flow::Normal(rv) => (s2, Flow::Normal(Val::Bool(truthy(rv)))),
                _ => (s2, b),
            };
            &&& sem_expr(f + 1, src, st, SExpr::Op(Opcode::And, Box::new(l), Box::new(r))) == match a {
                Flow::Normal(lv) => if !truthy(lv) {
                    (s1, Flow::Normal(Val::Bool(false)))
                } else {
                    right
                },
                _ => (s1, a),
            }
            &&& sem_expr(f + 1, src, st, SExpr::Op(Opcode::Or, Box::new(l), Box::new(r))) == match a {
                Flow::Normal(lv) => if truthy(lv) {
                    (s1, Flow::Normal(Val::Bool(true)))
                } else {
                    right
                },
                _ => (s1, a),
            }
        }),
{
}

proof fn lemma_define_all_same(env: Seq<Frame<Val>>, names: Seq<Seq<char>>, vs: Seq<Val>, d: Val, n: Seq<char>)
    requires
        env.len() >= 1,
        vs.len() == names.len(),
        forall|i: int| 0 <= i < vs.len() ==> vs[i] == d,
    ensures
        define_all(env, names, vs).len() == env.len(),
        define_all(env, names, vs).drop_last() == env.drop_last(),
        frame_get(define_all(env, names, vs).last(), n) == if names.contains(n) {
            Some(d)
        } else {
            frame_get(env.last(), n)
        },
    decreases names.len(),
{
    if names.len() > 0 {
        let e1 = env_define(env, names[0], vs[0]);
        lemma_frame_set_get(env.last(), names[0], vs[0], n);
        assert(e1.drop_last() =~= env.drop_last());
        lemma_define_all_same(e1, names.drop_first(), vs.drop_first(), d, n);
        assert(names.contains(n) == (n == names[0] || names.drop_first().contains(n))) by {
            if names.contains(n) && n != names[0] {
                let k = choose|k: int| 0 <= k < names.len() && names[k] == n;
                assert(names.drop_first()[k - 1] == n);
            }
            if names.drop_first().contains(n) {
                let k = choose|k: int| 0 <= k < names.drop_first().len() && names.drop_first()[k] == n;
                assert(names[k + 1] == n);
            }
        }
    }
}

/// A declaration binds each declared name, in the innermost scope, to the
/// initial value of its type (0, false, the empty string, the empty array),
/// replacing a value it had there; every other binding, the functions and
/// the output stay as they were, and the statement gives null. A `float`
/// declaration fails and changes nothing.
pub proof fn law_declaration_defaults(f: nat, src: Seq<u8>, st: State, names: Seq<Seq<char>>, ty: Type, n: Seq<char>)
    requires
        st.env.len() >= 1,
    ensures
        ({
            let (s2, r) = sem_stmt(f + 1, src, st, SStmt::VarDecl(names, ty));
            match default_value(ty) {
                Some(d) => {
                    &&& r == Flow::Normal(Val::Null)
                    &&& s2.funcs == st.funcs
                    &&& s2.out == st.out
                    &&& s2.env.len() == st.env.len()
                    &&& s2.env.drop_last() == st.env.drop_last()
                    &&& frame_get(s2.env.last(), n) == if names.contains(n) {
                        Some(d)
                    } else {
                        frame_get(st.env.last(), n)
                    }
                },
                None => s2 == st && r == Flow::Fail(float_message()),
            }
        }),
{
    if let Some(d) = default_value(ty) {
        lemma_define_all_same(st.env, names, Seq::new(names.len(), |i: int| d), d, n);
    }
}

/// An assignment to a variable evaluates its right side first. When the
/// name is visible, the nearest scope that holds it gets the value, the
/// statement gives that value, and every other name keeps its value; when
/// it is not, the statement fails with the undefined-variable message and
/// creates nothing.
pub proof fn law_assignment(f: nat, src: Seq<u8>, st: State, name: Seq<char>, start: usize, rhs: SExpr, other: Seq<char>)
    ensures
        ({
            let (s1, a) = sem_expr(f, src, st, rhs);
            let (s2, r) = sem_stmt(f + 1, src, st, SStmt::Assign(SExpr::Id(name, start), rhs));
            match a {
                Flow::Normal(v) => if env_get(s1.env, name) is Some {
                    &&& r == Flow::Normal(v)
                    &&& s2 == (State { env: env_assign(s1.env, name, v)->0, ..s1 })
                    &&& env_get(s2.env, name) == Some(v)
                    &&& other != name ==> env_get(s2.env, other) == env_get(s1.env, other)
                    &&& s2.env.len() == s1.env.len()
                } else {
                    s2 == s1 && r == Flow::Fail(undefined_variable_message(name))
                },
                _ => s2 == s1 && r == a,
            }
        }),
{
    let (s1, a) = sem_expr(f, src, st, rhs);
    if let Flow::Normal(v) = a {
        crate::environment::law_assign_needs_definition(s1.env, name, v);
        if env_get(s1.env, name) is Some {
            crate::environment::law_get_after_assign(s1.env, name, other, v);
        }
    }
}

/// An assignment whose target is neither a variable nor an indexing fails,
/// after its right side is evaluated.
pub proof fn law_assignment_target(f: nat, src: Seq<u8>, st: State, lhs: SExpr, rhs: SExpr)
    requires
        !(lhs is Id),
        !(lhs is Index),
    ensures
        ({
            let (s1, a) = sem_expr(f, src, st, rhs);
            sem_stmt(f + 1, src, st, SStmt::Assign(lhs, rhs)) == match a {
                Flow::Normal(_) => (s1, Flow::Fail("赋值左侧必须是变量或索引"@)),
                _ => (s1, a),
            }
        }),
{
}

/// A block runs its statements in a new innermost scope and gives what
/// they give: the last one's value, or how they stopped. Afterwards that
/// scope is gone, the functions are those from before the block, and the
/// changes to enclosing variables and the output stay.
pub proof fn law_block(f: nat, src: Seq<u8>, st: State, b: Seq<SStmt>)
    ensures
        ({
            let (s2, r) = sem_stmts(f, src, enter_scope(st), b);
            sem_stmt(f + 1, src, st, SStmt::Block(b)) == (
                State { env: pop_env(s2.env), funcs: st.funcs, out: s2.out },
                r,
            )
        }),
{
}

/// `return e` stops with the value of `e` as a return, and `return` with
/// null.
pub proof fn law_return(f: nat, src: Seq<u8>, st: State, e: SExpr)
    ensures
        sem_stmt(f + 1, src, st, SStmt::Return(None)) == (st, Flow::Ret(Val::Null)),
        ({
            let (s1, a) = sem_expr(f, src, st, e);
            sem_stmt(f + 1, src, st, SStmt::Return(Some(e))) == match a {
                Flow::Normal(v) => (s1, Flow::Ret(v)),
                _ => (s1, a),
            }
        }),
{
}

/// A return passes unchanged out of the `if`, `while` and block around
/// it.
pub proof fn law_return_passes_out(f: nat, src: Seq<u8>, st: State, c: SExpr, body: Seq<SStmt>, x: Val)
    ensures
        ({
            let (s1, a) = sem_expr(f, src, st, c);
            let (s2, r) = sem_stmts(f, src, s1, body);
            (a matches Flow::Normal(v) && truthy(v) && r == Flow::Ret(x)) ==> {
                &&& sem_stmt(f + 1, src, st, SStmt::If(c, body)) == (s2, Flow::Ret(x))
                &&& sem_stmt(f + 1, src, st, SStmt::IfElse(c, body, Seq::empty())) == (s2, Flow::Ret(x))
                &&& sem_stmt(f + 2, src, st, SStmt::While(c, body)) == (s2, Flow::Ret(x))
            }
        }),
        sem_stmts(f, src, enter_scope(st), body).1 == Flow::Ret(x) ==> sem_stmt(
            f + 1,
            src,
            st,
            SStmt::Block(body),
        ).1 == Flow::Ret(x),
{
    assert(((f + 2) - 1) as nat == f + 1);
}

/// A call's body ends as the call's value: a return gives its value, a
/// body that ends without one gives null, and an error stays an error.
pub proof fn law_call_gives_return_value(f: nat, src: Seq<u8>, s1: State, func: SFunc, vs: Seq<Val>)
    ensures
        ({
            let entered = enter_scope(s1);
            let bound = State { env: define_all(entered.env, func.params, vs), ..entered };
            let r = sem_stmts(f, src, bound, func.body).1;
            sem_body(f, src, s1, func, vs).1 == match r {
                Flow::Ret(v) => Flow::Normal(v),
                Flow::Normal(_) => Flow::Normal(Val::Null),
                Flow::Fail(m) => Flow::Fail(m),
            }
        }),
{
}

/// Statements run in order: an empty list gives null; after a statement
/// that completes, the rest run from the state it left; the first statement
/// that does not complete (an error or a return) ends the list with its
/// state and outcome, and the statements after it do not run.
pub proof fn law_statements_run_in_order(f: nat, src: Seq<u8>, st: State, s: SStmt, rest: Seq<SStmt>)
    ensures
        sem_stmts(f + 1, src, st, Seq::empty()) == (st, Flow::Normal(Val::Null)),
        ({
            let (s1, r) = sem_stmt(f, src, st, s);
            sem_stmts(f + 1, src, st, seq![s] + rest) == match r {
                Flow::Normal(v) => stmts_from(f, src, s1, rest, v),
                _ => (s1, r),
            }
        }),
{
    let ss = seq![s] + rest;
    assert(ss[0] == s);
    assert(ss.drop_first() =~= rest);
}

/// The budget of a whole run.
pub open spec fn full_budget() -> nat {
    MAX_STEPS as nat
}

/// One step less than the budget of a whole run.
pub open spec fn part_budget() -> nat {
    (MAX_STEPS - 1) as nat
}

/// `and` and `or` with the full budget, in terms of what each operand gives
/// when evaluated on its own.
pub proof fn law_full_budget_and_or(src: Seq<u8>, st: State, l: SExpr, r: SExpr)
    requires
        sem_expr(part_budget(), src, st, l).1 != out_of_steps(),
        sem_expr(part_budget(), src, st, l).1 is Normal ==> sem_expr(
            part_budget(),
            src,
            sem_expr(part_budget(), src, st, l).0,
            r,
        ).1 != out_of_steps(),
    ensures
        ({
            let (s1, a) = sem_expr(full_budget(), src, st, l);
            let (s2, b) = sem_expr(full_budget(), src, s1, r);
            let right = match b {
                Flow::Normal(rv) => (s2, Flow::Normal(Val::Bool(truthy(rv)))),
                _ => (s2, b),
            };
            &&& sem_expr(full_budget(), src, st, SExpr::Op(Opcode::And, Box::new(l), Box::new(r))) == match a {
                Flow::Normal(lv) => if !truthy(lv) {
                    (s1, Flow::Normal(Val::Bool(false)))
                } else {
                    right
                },
                _ => (s1, a),
            }
            &&& sem_expr(full_budget(), src, st, SExpr::Op(Opcode::Or, Box::new(l), Box::new(r))) == match a {
                Flow::Normal(lv) => if truthy(lv) {
                    (s1, Flow::Normal(Val::Bool(true)))
                } else {
                    right
                },
                _ => (s1, a),
            }
        }),
{
    let p = part_budget();
    law_and_or_short_circuit(p, src, st, l, r);
    law_budget_only_cuts_short_expr(p, full_budget(), src, st, l);
    let s1 = sem_expr(p, src, st, l).0;
    if sem_expr(p, src, st, l).1 is Normal {
        law_budget_only_cuts_short_expr(p, full_budget(), src, s1, r);
    }
    assert(p + 1 == full_budget());
}

/// An assignment with the full budget, in terms of what its right side
/// gives when evaluated on its own.
pub proof fn law_full_budget_assignment(src: Seq<u8>, st: State, name: Seq<char>, start: usize, rhs: SExpr, other: Seq<char>)
    requires
        sem_expr(part_budget(), src, st, rhs).1 != out_of_steps(),
    ensures
        ({
            let (s1, a) = sem_expr(full_budget(), src, st, rhs);
            let (s2, r) = sem_stmt(full_budget(), src, st, SStmt::Assign(SExpr::Id(name, start), rhs));
            match a {
                Flow::Normal(v) => if env_get(s1.env, name) is Some {
                    &&& r == Flow::Normal(v)
                    &&& s2 == (State { env: env_assign(s1.env, name, v)->0, ..s1 })
                    &&& env_get(s2.env, name) == Some(v)
                    &&& other != name ==> env_get(s2.env, other) == env_get(s1.env, other)
                    &&& s2.env.len() == s1.env.len()
                } else {
                    s2 == s1 && r == Flow::Fail(undefined_variable_message(name))
                },
                _ => s2 == s1 && r == a,
            }
        }),
{
    let p = part_budget();
    law_assignment(p, src, st, name, start, rhs, other);
    law_budget_only_cuts_short_expr(p, full_budget(), src, st, rhs);
    assert(p + 1 == full_budget());
}

/// An assignment to a target that is neither a variable nor an indexing,
/// with the full budget.
pub proof fn law_full_budget_assignment_target(src: Seq<u8>, st: State, lhs: SExpr, rhs: SExpr)
    requires
        !(lhs is Id),
        !(lhs is Index),
        sem_expr(part_budget(), src, st, rhs).1 != out_of_steps(),
    ensures
        ({
            let (s1, a) = sem_expr(full_budget(), src, st, rhs);
            sem_stmt(full_budget(), src, st, SStmt::Assign(lhs, rhs)) == match a {
                Flow::Normal(_) => (s1, Flow::Fail("赋值左侧必须是变量或索引"@)),
                _ => (s1, a),
            }
        }),
{
    let p = part_budget();
    law_assignment_target(p, src, st, lhs, rhs);
    law_budget_only_cuts_short_expr(p, full_budget(), src, st, rhs);
    assert(p + 1 == full_budget());
}

/// `return` with the full budget, in terms of what its operand gives when
/// evaluated on its own.
pub proof fn law_full_budget_return(src: Seq<u8>, st: State, e: SExpr)
    requires
        sem_expr(part_budget(), src, st, e).1 != out_of_steps(),
    ensures
        sem_stmt(full_budget(), src, st, SStmt::Return(None)) == (st, Flow::Ret(Val::Null)),
        ({
            let (s1, a) = sem_expr(full_budget(), src, st, e);
            sem_stmt(full_budget(), src, st, SStmt::Return(Some(e))) == match a {
                Flow::Normal(v) => (s1, Flow::Ret(v)),
                _ => (s1, a),
            }
        }),
{
    let p = part_budget();
    law_return(p, src, st, e);
    law_budget_only_cuts_short_expr(p, full_budget(), src, st, e);
    assert(p + 1 == full_budget());
}

/// A return in the branch that an `if` takes, or in a block, passes out of
/// it unchanged, with the full budget.
pub proof fn law_full_budget_return_passes_out(src: Seq<u8>, st: State, c: SExpr, body: Seq<SStmt>, x: Val)
    requires
        sem_expr(part_budget(), src, st, c).1 != out_of_steps(),
        sem_expr(part_budget(), src, st, c).1 is Normal ==> sem_stmts(
            part_budget(),
            src,
            sem_expr(part_budget(), src, st, c).0,
            body,
        ).1 != out_of_steps(),
        sem_stmts(part_budget(), src, enter_scope(st), body).1 != out_of_steps(),
    ensures
        ({
            let (s1, a) = sem_expr(full_budget(), src, st, c);
            let (s2, r) = sem_stmts(full_budget(), src, s1, body);
            (a matches Flow::Normal(v) && truthy(v) && r == Flow::Ret(x)) ==> sem_stmt(
                full_budget(),
                src,
                st,
                SStmt::If(c, body),
            ) == (s2, Flow::Ret(x))
        }),
        sem_stmts(full_budget(), src, enter_scope(st), body).1 == Flow::Ret(x) ==> sem_stmt(
            full_budget(),
            src,
            st,
            SStmt::Block(body),
        ).1 == Flow::Ret(x),
{
    let p = part_budget();
    law_return_passes_out(p, src, st, c, body, x);
    law_budget_only_cuts_short_expr(p, full_budget(), src, st, c);
    if sem_expr(p, src, st, c).1 is Normal {
        law_budget_only_cuts_short(p, full_budget(), src, sem_expr(p, src, st, c).0, body);
    }
    law_budget_only_cuts_short(p, full_budget(), src, enter_scope(st), body);
    assert(p + 1 == full_budget());
}

/// A block with the full budget: its statements run in a new innermost
/// scope as a run of their own would run them there; afterwards the scope
/// is gone, every scope has exactly the names it had, the functions are
/// those from before, and changes to enclosing variables and the output
/// stay.
pub proof fn law_full_budget_block(src: Seq<u8>, st: State, b: Seq<SStmt>)
    requires
        st.env.len() >= 1,
        sem_stmts(part_budget(), src, enter_scope(st), b).1 != out_of_steps(),
    ensures
        ({
            let (s2, r) = sem_stmts(full_budget(), src, enter_scope(st), b);
            sem_stmt(full_budget(), src, st, SStmt::Block(b)) == (
                State { env: pop_env(s2.env), funcs: st.funcs, out: s2.out },
                r,
            )
        }),
        expr_effect(st, sem_stmt(full_budget(), src, st, SStmt::Block(b)).0),
{
    let p = part_budget();
    law_block(p, src, st, b);
    law_budget_only_cuts_short(p, full_budget(), src, enter_scope(st), b);
    law_block_declarations_stay_inside(full_budget(), src, st, b);
    assert(p + 1 == full_budget());
}

/// A run of statements with the full budget: an empty list gives null;
/// after a first statement that completes, the rest run from the state it
/// left as a run of their own would run them; the first statement that does
/// not complete ends the run with its state and outcome, and nothing after
/// it runs.
pub proof fn law_full_budget_statements_run_in_order(src: Seq<u8>, st: State, s: SStmt, rest: Seq<SStmt>)
    requires
        sem_stmt(part_budget(), src, st, s).1 != out_of_steps(),
    ensures
        sem_stmts(full_budget(), src, st, Seq::empty()) == (st, Flow::Normal(Val::Null)),
        ({
            let (s1, r) = sem_stmt(full_budget(), src, st, s);
            sem_stmts(full_budget(), src, st, seq![s] + rest) == match r {
                Flow::Normal(v) => if rest.len() == 0 {
                    (s1, Flow::Normal(v))
                } else {
                    sem_stmts(full_budget(), src, s1, rest)
                },
                _ => (s1, r),
            }
        }),
{
    let p = part_budget();
    law_statements_run_in_order(p, src, st, s, rest);
    law_budget_only_cuts_short_stmt(p, full_budget(), src, st, s);
    assert(p + 1 == full_budget());
}

} // verus!
