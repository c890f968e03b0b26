//! What the operators, calls and `for` loops compute, stated in ordinary
//! arithmetic and logic over all operand values.
use vstd::prelude::*;

use crate::ast::{Opcode, SExpr, SStmt};
use crate::environment::{env_define, env_get, frame_get, frame_index, lemma_frame_set_get, Frame};
use crate::scoping::law_expressions_keep_names;
use crate::semantics::{define_all, enter_scope, overflow_message, sem_expr, sem_exprs, sem_stmt, Flow, SFunc, State};
use crate::value::Val;

verus! {

/// Whether an integer fits in `i64`.
pub open spec fn fits(n: int) -> bool {
    i64::MIN <= n <= i64::MAX
}

/// An integer result: the value when it fits in `i64`, else the overflow
/// error.
pub open spec fn checked(n: int) -> Flow {
    if fits(n) {
        Flow::Normal(Val::Int(n as i64))
    } else {
        Flow::Fail(overflow_message())
    }
}

/// `q` is `x / y` rounded toward zero: the remainder `x - q * y` is smaller
/// than `y` in size and is zero or has the sign of `x`.
pub open spec fn quotient_toward_zero(x: int, y: int, q: int) -> bool {
    let r = x - q * y;
    &&& (if r < 0 { -r } else { r }) < (if y < 0 { -y } else { y })
    &&& (r == 0 || ((r < 0) == (x < 0)))
}

proof fn lemma_division_toward_zero(x: i64, y: i64)
    requires
        y != 0,
        !(x == i64::MIN && y == -1),
    ensures
        x.checked_div(y) matches Some(q) && quotient_toward_zero(x as int, y as int, q as int),
{
    let a = x as int;
    let d = y as int;
    if a == 0 {
        assert(quotient_toward_zero(a, d, 0));
    } else if a > 0 && d > 0 {
        let q = a / d;
        vstd::arithmetic::div_mod::lemma_fundamental_div_mod(a, d);
        let r = a % d;
        assert(a - q * d == r) by (nonlinear_arith)
            requires
                a == d * q + r,
        ;
        assert(quotient_toward_zero(a, d, q));
        assert(0 <= q <= a) by (nonlinear_arith)
            requires
                d > 0,
                a > 0,
                q == a / d,
        ;
    } else if a < 0 && d < 0 {
        let q = (a * -1) / (d * -1);
        vstd::arithmetic::div_mod::lemma_fundamental_div_mod(-a, -d);
        let r = (-a) % (-d);
        assert(a - q * d == -r) by (nonlinear_arith)
            requires
                -a == (-d) * q + r,
        ;
        assert(quotient_toward_zero(a, d, q));
        assert(0 <= q) by (nonlinear_arith)
            requires
                -d > 0,
                -a > 0,
                q == (-a) / (-d),
        ;
        if d == -1 {
            assert(q == -a) by (nonlinear_arith)
                requires
                    d == -1,
                    q == (a * -1) / (d * -1),
            ;
        } else {
            assert(q * 2 <= -a) by (nonlinear_arith)
                requires
                    -d >= 2,
                    q >= 0,
                    0 <= r,
                    -a == (-d) * q + r,
            ;
        }
    } else if a < 0 {
        let q0 = (a * -1) / d;
        let q = q0 * -1;
        vstd::arithmetic::div_mod::lemma_fundamental_div_mod(-a, d);
        let r = (-a) % d;
        assert(a - q * d == -r) by (nonlinear_arith)
            requires
                -a == d * q0 + r,
                q == q0 * -1,
        ;
        assert(quotient_toward_zero(a, d, q));
        assert(0 <= q0 <= -a) by (nonlinear_arith)
            requires
                d > 0,
                -a > 0,
                q0 == (-a) / d,
        ;
    } else {
        let q0 = a / (d * -1);
        let q = q0 * -1;
        vstd::arithmetic::div_mod::lemma_fundamental_div_mod(a, -d);
        let r = a % (-d);
        assert(a - q * d == r) by (nonlinear_arith)
            requires
                a == (-d) * q0 + r,
                q == q0 * -1,
        ;
        assert(quotient_toward_zero(a, d, q));
        assert(0 <= q0 <= a) by (nonlinear_arith)
            requires
                -d > 0,
                a > 0,
                q0 == a / (-d),
        ;
    }
}

/// The arithmetic and comparison operators on two integer operands: the
/// operands are evaluated left first, and the result is the mathematical
/// sum, difference or product when it fits in `i64` (else the overflow
/// error), the quotient rounded toward zero (the division error for a zero
/// divisor, the overflow error for `i64::MIN / -1`), or the truth of the
/// comparison.
pub proof fn law_integer_operators(f: nat, src: Seq<u8>, st: State, l: SExpr, r: SExpr, x: i64, y: i64)
    requires
        sem_expr(f, src, st, l).1 == Flow::Normal(Val::Int(x)),
        sem_expr(f, src, sem_expr(f, src, st, l).0, r).1 == Flow::Normal(Val::Int(y)),
    ensures
        ({
            let s2 = sem_expr(f, src, sem_expr(f, src, st, l).0, r).0;
            let op = |o: Opcode| sem_expr(f + 1, src, st, SExpr::Op(o, Box::new(l), Box::new(r)));
            &&& op(Opcode::Add) == (s2, checked(x + y))
            &&& op(Opcode::Sub) == (s2, checked(x - y))
            &&& op(Opcode::Mul) == (s2, checked(x * y))
            &&& y == 0 ==> op(Opcode::Div) == (s2, Flow::Fail("除数不能为零"@))
            &&& (x == i64::MIN && y == -1) ==> op(Opcode::Div) == (s2, Flow::Fail(overflow_message()))
            &&& (y != 0 && !(x == i64::MIN && y == -1)) ==> (op(Opcode::Div).0 == s2 && (op(
                Opcode::Div,
            ).1 matches Flow::Normal(Val::Int(q)) && quotient_toward_zero(x as int, y as int, q as int)))
            &&& op(Opcode::LessThan) == (s2, Flow::Normal(Val::Bool(x < y)))
            &&& op(Opcode::LessOrEqual) == (s2, Flow::Normal(Val::Bool(x <= y)))
            &&& op(Opcode::GreaterThan) == (s2, Flow::Normal(Val::Bool(x > y)))
            &&& op(Opcode::GreaterOrEqual) == (s2, Flow::Normal(Val::Bool(x >= y)))
            &&& op(Opcode::Equal) == (s2, Flow::Normal(Val::Bool(x == y)))
            &&& op(Opcode::NotEqual) == (s2, Flow::Normal(Val::Bool(x != y)))
        }),
{
    if y != 0 && !(x == i64::MIN && y == -1) {
        lemma_division_toward_zero(x, y);
    }
}

/// `=` and `!=` on two boolean operands give whether they are equal and
/// whether they differ: `false = false` is true.
pub proof fn law_boolean_equality(f: nat, src: Seq<u8>, st: State, l: SExpr, r: SExpr, a: bool, b: bool)
    requires
        sem_expr(f, src, st, l).1 == Flow::Normal(Val::Bool(a)),
        sem_expr(f, src, sem_expr(f, src, st, l).0, r).1 == Flow::Normal(Val::Bool(b)),
    ensures
        ({
            let s2 = sem_expr(f, src, sem_expr(f, src, st, l).0, r).0;
            &&& sem_expr(f + 1, src, st, SExpr::Op(Opcode::Equal, Box::new(l), Box::new(r))) == (
                s2,
                Flow::Normal(Val::Bool(a == b)),
            )
            &&& sem_expr(f + 1, src, st, SExpr::Op(Opcode::NotEqual, Box::new(l), Box::new(r))) == (
                s2,
                Flow::Normal(Val::Bool(a != b)),
            )
        }),
{
}

/// `+` on two string operands joins them, and `=` and `!=` compare them
/// character by character.
pub proof fn law_string_operators(f: nat, src: Seq<u8>, st: State, l: SExpr, r: SExpr, a: Seq<char>, b: Seq<char>)
    requires
        sem_expr(f, src, st, l).1 == Flow::Normal(Val::Str(a)),
        sem_expr(f, src, sem_expr(f, src, st, l).0, r).1 == Flow::Normal(Val::Str(b)),
    ensures
        ({
            let s2 = sem_expr(f, src, sem_expr(f, src, st, l).0, r).0;
            let op = |o: Opcode| sem_expr(f + 1, src, st, SExpr::Op(o, Box::new(l), Box::new(r)));
            &&& op(Opcode::Add) == (s2, Flow::Normal(Val::Str(a + b)))
            &&& op(Opcode::Equal) == (s2, Flow::Normal(Val::Bool(a == b)))
            &&& op(Opcode::NotEqual) == (s2, Flow::Normal(Val::Bool(a != b)))
        }),
{
}

/// `not` turns a boolean into its opposite, and `-` an integer into its
/// negation (the overflow error for `i64::MIN`).
pub proof fn law_not_and_negation(f: nat, src: Seq<u8>, st: State, e: SExpr)
    ensures
        ({
            let (s1, a) = sem_expr(f, src, st, e);
            &&& a matches Flow::Normal(Val::Bool(b)) ==> sem_expr(f + 1, src, st, SExpr::Not(Box::new(e))) == (
                s1,
                Flow::Normal(Val::Bool(!b)),
            )
            &&& a matches Flow::Normal(Val::Int(n)) ==> sem_expr(f + 1, src, st, SExpr::Neg(Box::new(e))) == (
                s1,
                checked(-n),
            )
        }),
{
}

proof fn lemma_define_all_other(env: Seq<Frame<Val>>, ns: Seq<Seq<char>>, vs: Seq<Val>, n: Seq<char>)
    requires
        env.len() >= 1,
        !ns.contains(n),
    ensures
        define_all(env, ns, vs).len() == env.len(),
        frame_get(define_all(env, ns, vs).last(), n) == frame_get(env.last(), n),
    decreases ns.len(),
{
    if ns.len() > 0 && vs.len() > 0 {
        let e1 = env_define(env, ns[0], vs[0]);
        lemma_frame_set_get(env.last(), ns[0], vs[0], n);
        assert(ns[0] != n);
        assert(!ns.drop_first().contains(n)) by {
            if ns.drop_first().contains(n) {
                let j = choose|j: int| 0 <= j < ns.drop_first().len() && ns.drop_first()[j] == n;
                assert(ns[j + 1] == n);
            }
        }
        lemma_define_all_other(e1, ns.drop_first(), vs.drop_first(), n);
    }
}

proof fn lemma_define_all_at(env: Seq<Frame<Val>>, ns: Seq<Seq<char>>, vs: Seq<Val>, k: int)
    requires
        env.len() >= 1,
        ns.len() == vs.len(),
        0 <= k < ns.len(),
        forall|i: int, j: int| 0 <= i < j < ns.len() ==> ns[i] != ns[j],
    ensures
        define_all(env, ns, vs).len() == env.len(),
        frame_get(define_all(env, ns, vs).last(), ns[k]) == Some(vs[k]),
    decreases ns.len(),
{
    let e1 = env_define(env, ns[0], vs[0]);
    if k == 0 {
        lemma_frame_set_get(env.last(), ns[0], vs[0], ns[0]);
        assert(!ns.drop_first().contains(ns[0])) by {
            if ns.drop_first().contains(ns[0]) {
                let j = choose|j: int| 0 <= j < ns.drop_first().len() && ns.drop_first()[j] == ns[0];
                assert(ns[j + 1] == ns[0]);
            }
        }
        lemma_define_all_other(e1, ns.drop_first(), vs.drop_first(), ns[0]);
    } else {
        assert(ns.drop_first()[k - 1] == ns[k]);
        lemma_define_all_at(e1, ns.drop_first(), vs.drop_first(), k - 1);
    }
}

/// A call `f(e1, .., en)` of a function whose parameters `p1, .., pn` are
/// distinct runs its body with each `pi` bound to the value of the `i`-th
/// argument: a body that returns its `k`-th parameter gives the value of
/// the `k`-th argument.
pub proof fn law_call_binds_arguments_in_order(
    f: nat,
    src: Seq<u8>,
    st: State,
    name: Seq<char>,
    args: Seq<SExpr>,
    func: SFunc,
    vs: Seq<Val>,
    k: int,
    at: usize,
)
    requires
        f >= 3,
        name != "len"@,
        frame_get(st.funcs, name) == Some(func),
        func.params.len() == args.len(),
        forall|i: int, j: int| 0 <= i < j < func.params.len() ==> func.params[i] != func.params[j],
        0 <= k < func.params.len(),
        func.body == seq![SStmt::Return(Some(SExpr::Id(func.params[k], at)))],
        sem_exprs(f, src, st, args).1 == Ok::<Seq<Val>, Flow>(vs),
        vs.len() == args.len(),
    ensures
        sem_expr(f + 1, src, st, SExpr::Call(name, args)).1 == Flow::Normal(vs[k]),
{
    let s1 = sem_exprs(f, src, st, args).0;
    let entered = enter_scope(s1);
    let env = define_all(entered.env, func.params, vs);
    lemma_define_all_at(entered.env, func.params, vs, k);
    assert(frame_index(env.last(), func.params[k]) is Some);
    assert(env_get(env, func.params[k]) == Some(vs[k]));
    let bound = State { env, ..entered };
    let p = func.params[k];
    let ret = SExpr::Id(p, at);
    assert(sem_expr((f - 2) as nat, src, bound, ret) == (bound, Flow::Normal(vs[k])));
    assert(crate::semantics::sem_return((f - 2) as nat, src, bound, ret) == (bound, Flow::Ret(vs[k])));
    assert(sem_stmt((f - 1) as nat, src, bound, func.body[0]) == (bound, Flow::Ret(vs[k])));
    assert(crate::semantics::stmts_from((f - 1) as nat, src, bound, func.body, Val::Null).1 == Flow::Ret(vs[k]));
    assert(crate::semantics::sem_stmts(f, src, bound, func.body).1 == Flow::Ret(vs[k]));
    assert(crate::semantics::sem_body(f, src, s1, func, vs).1 == Flow::Normal(vs[k]));
    assert(crate::semantics::sem_user_call(f, src, st, name, args).1 == Flow::Normal(vs[k]));
}

/// A `for` loop whose start value is greater than its end value never runs
/// its body: the state is the one after evaluating the start, and the loop
/// gives null.
pub proof fn law_for_skips_when_start_is_past_end(
    f: nat,
    src: Seq<u8>,
    st: State,
    name: Seq<char>,
    start: SExpr,
    end: u32,
    body: Seq<SStmt>,
    n: i64,
)
    requires
        f >= 3,
        st.env.len() >= 1,
        sem_expr(f, src, st, start).1 == Flow::Normal(Val::Int(n)),
        n > end,
    ensures
        sem_stmt(f + 1, src, st, SStmt::For(name, start, SExpr::Num(end), body)) == (
            sem_expr(f, src, st, start).0,
            Flow::Normal(Val::Null),
        ),
{
    let s1 = sem_expr(f, src, st, start).0;
    law_expressions_keep_names(f, src, st, start);
    let entered = enter_scope(s1);
    let init = State { env: env_define(entered.env, name, Val::Int(n)), ..entered };
    lemma_frame_set_get(entered.env.last(), name, Val::Int(n), name);
    assert(env_get(init.env, name) == Some(Val::Int(n)));
    assert(init.env.drop_last() =~= s1.env);
    let g = (f - 1) as nat;
    let cond = crate::semantics::for_condition(name, SExpr::Num(end));
    assert(sem_expr((g - 1) as nat, src, init, SExpr::Id(name, 0)) == (init, Flow::Normal(Val::Int(n))));
    assert(sem_expr((g - 1) as nat, src, init, SExpr::Num(end)) == (init, Flow::Normal(Val::Int(end as i64))));
    assert(sem_expr(g, src, init, cond) == (init, Flow::Normal(Val::Bool(false))));
    assert(crate::semantics::sem_for(f, src, init, name, SExpr::Num(end), body) == (init, Flow::Normal(Val::Null)));
    assert(crate::semantics::leave_scope(s1, init) == s1);
}

/// A variable reads as the value that the nearest scope holding it gives
/// it; an undefined one fails with the message that names it and the line
/// and column of `at`.
pub proof fn law_variable_read(f: nat, src: Seq<u8>, st: State, name: Seq<char>, at: usize)
    ensures
        sem_expr(f + 1, src, st, SExpr::Id(name, at)) == match env_get(st.env, name) {
            Some(v) => (st, Flow::Normal(v)),
            None => (st, Flow::Fail(crate::semantics::undefined_at_message(src, at, name))),
        },
{
}

/// `a[i]` on an array and an integer index gives the element at that index
/// when `0 <= i < len`, and otherwise fails with the bounds message that
/// names the length and the index.
pub proof fn law_indexing(f: nat, src: Seq<u8>, st: State, a: SExpr, i: SExpr, items: Seq<Val>, k: i64)
    requires
        sem_expr(f, src, st, a).1 == Flow::Normal(Val::Arr(items)),
        sem_expr(f, src, sem_expr(f, src, st, a).0, i).1 == Flow::Normal(Val::Int(k)),
    ensures
        ({
            let s2 = sem_expr(f, src, sem_expr(f, src, st, a).0, i).0;
            sem_expr(f + 1, src, st, SExpr::Index(Box::new(a), Box::new(i))) == if 0 <= k < items.len() {
                (s2, Flow::Normal(items[k as int]))
            } else {
                (s2, Flow::Fail(crate::semantics::bounds_message(items.len() as int, k as int)))
            }
        }),
{
}

/// `len(e)` gives the number of elements of an array and the number of
/// UTF-8 bytes of a string.
pub proof fn law_len(f: nat, src: Seq<u8>, st: State, e: SExpr)
    ensures
        ({
            let (s1, a) = sem_expr(f, src, st, e);
            let call = sem_expr(f + 1, src, st, SExpr::Call("len"@, seq![e]));
            &&& a matches Flow::Normal(Val::Arr(items)) ==> call == (s1, Flow::Normal(Val::Int(items.len() as i64)))
            &&& a matches Flow::Normal(Val::Str(s)) ==> call == (s1, Flow::Normal(
                Val::Int((vstd::utf8::encode_utf8(s).len() as usize) as i64),
            ))
        }),
{
    assert(seq![e][0] == e);
}

/// `print e` appends the printed form of the value of `e` and a line feed
/// to the output, changes nothing else, and gives null.
pub proof fn law_print(f: nat, src: Seq<u8>, st: State, e: SExpr)
    ensures
        ({
            let (s1, a) = sem_expr(f, src, st, e);
            a matches Flow::Normal(v) ==> sem_stmt(f + 1, src, st, SStmt::Print(e)) == (
                State { out: s1.out + crate::value::show(v) + "\n"@, ..s1 },
                Flow::Normal(Val::Null),
            )
        }),
{
}

/// `if` runs the first branch when the condition is true and the second
/// (or nothing) when it is false; it gives null unless the branch stops
/// with an error or a return, which it passes on.
pub proof fn law_if(f: nat, src: Seq<u8>, st: State, c: SExpr, t: Seq<SStmt>, e: Seq<SStmt>)
    ensures
        ({
            let (s1, a) = sem_expr(f, src, st, c);
            let taken = |b: Seq<SStmt>| {
                let (s2, r) = crate::semantics::sem_stmts(f, src, s1, b);
                (s2, if r is Normal { Flow::Normal(Val::Null) } else { r })
            };
            a matches Flow::Normal(v) ==> {
                &&& sem_stmt(f + 1, src, st, SStmt::IfElse(c, t, e)) == if crate::value::truthy(v) {
                    taken(t)
                } else {
                    taken(e)
                }
                &&& sem_stmt(f + 1, src, st, SStmt::If(c, t)) == if crate::value::truthy(v) {
                    taken(t)
                } else {
                    (s1, Flow::Normal(Val::Null))
                }
            }
        }),
{
}

/// `while` tests its condition before each round: a false condition ends
/// the loop with null without running the body; a true one runs the body
/// and, when the body completes, tests the condition again.
pub proof fn law_while(f: nat, src: Seq<u8>, st: State, c: SExpr, body: Seq<SStmt>)
    ensures
        ({
            let (s1, a) = sem_expr(f, src, st, c);
            let (s2, r) = crate::semantics::sem_stmts(f, src, s1, body);
            a matches Flow::Normal(v) ==> sem_stmt(f + 2, src, st, SStmt::While(c, body)) == if !crate::value::truthy(v) {
                (s1, Flow::Normal(Val::Null))
            } else if r is Normal {
                crate::semantics::sem_while(f, src, s2, c, body)
            } else {
                (s2, r)
            }
        }),
{
    assert(((f + 2) - 1) as nat == f + 1);
}

/// A `for` loop whose start and end values are equal runs its body once,
/// with the loop variable holding that value: a body that prints the
/// variable prints it once.
pub proof fn law_for_single_round(f: nat, src: Seq<u8>, st: State, name: Seq<char>, start: SExpr, n: u32)
    requires
        f >= 8,
        st.env.len() >= 1,
        sem_expr(f, src, st, start).1 == Flow::Normal(Val::Int(n as i64)),
    ensures
        ({
            let s1 = sem_expr(f, src, st, start).0;
            sem_stmt(
                f + 1,
                src,
                st,
                SStmt::For(name, start, SExpr::Num(n), seq![SStmt::Print(SExpr::Id(name, 0))]),
            ) == (State { out: s1.out + crate::text::decimal(n as int) + "\n"@, ..s1 }, Flow::Normal(Val::Null))
        }),
{
    let s1 = sem_expr(f, src, st, start).0;
    law_expressions_keep_names(f, src, st, start);
    let entered = enter_scope(s1);
    let v = Val::Int(n as i64);
    let init = State { env: env_define(entered.env, name, v), ..entered };
    lemma_frame_set_get(entered.env.last(), name, v, name);
    assert(env_get(init.env, name) == Some(v));
    let body = seq![SStmt::Print(SExpr::Id(name, 0))];
    let g = (f - 1) as nat;
    let cond = crate::semantics::for_condition(name, SExpr::Num(n));
    assert(sem_expr((g - 1) as nat, src, init, SExpr::Id(name, 0)) == (init, Flow::Normal(v)));
    assert(sem_expr((g - 1) as nat, src, init, SExpr::Num(n)) == (init, Flow::Normal(v)));
    assert(sem_expr(g, src, init, cond) == (init, Flow::Normal(Val::Bool(true))));
    let printed = State { out: init.out + crate::value::show(v) + "\n"@, ..init };
    assert(sem_expr((g - 2) as nat, src, init, SExpr::Id(name, 0)) == (init, Flow::Normal(v)));
    assert(sem_stmt((g - 1) as nat, src, init, body[0]) == (printed, Flow::Normal(Val::Null)));
    assert(body.drop_first() =~= Seq::<SStmt>::empty());
    assert(crate::semantics::sem_stmts(g, src, init, body) == (printed, Flow::Normal(Val::Null)));
    // the step `name := name + 1` and the test after it
    let step = crate::semantics::for_step(name);
    assert(env_get(printed.env, name) == Some(v));
    let sum = SExpr::Op(Opcode::Add, Box::new(SExpr::Id(name, 0)), Box::new(SExpr::Num(1)));
    assert(sem_expr((g - 2) as nat, src, printed, SExpr::Id(name, 0)) == (printed, Flow::Normal(v)));
    assert(sem_expr((g - 2) as nat, src, printed, SExpr::Num(1)) == (printed, Flow::Normal(Val::Int(1))));
    let w = Val::Int((n + 1) as i64);
    assert(sem_expr((g - 1) as nat, src, printed, sum) == (printed, Flow::Normal(w)));
    crate::environment::law_assign_needs_definition(printed.env, name, w);
    crate::environment::law_get_after_assign(printed.env, name, name, w);
    let stepped = State { env: crate::environment::env_assign(printed.env, name, w)->0, ..printed };
    assert(sem_stmt(g, src, printed, step) == (stepped, Flow::Normal(w)));
    assert(env_get(stepped.env, name) == Some(w));
    let h = (g - 1) as nat;
    assert(sem_expr((h - 1) as nat, src, stepped, SExpr::Id(name, 0)) == (stepped, Flow::Normal(w)));
    assert(sem_expr((h - 1) as nat, src, stepped, SExpr::Num(n)) == (stepped, Flow::Normal(v)));
    assert(sem_expr(h, src, stepped, cond) == (stepped, Flow::Normal(Val::Bool(false))));
    assert(crate::semantics::sem_for(g, src, stepped, name, SExpr::Num(n), body) == (stepped, Flow::Normal(Val::Null)));
    assert(crate::semantics::sem_for(f, src, init, name, SExpr::Num(n), body) == (stepped, Flow::Normal(Val::Null)));
    assert(stepped.env.len() == init.env.len());
    assert(stepped.env.drop_last() =~= s1.env) by {
        assert(init.env.drop_last() =~= s1.env);
        assert(printed.env == init.env);
        // the assignment changed only the innermost scope, which holds `name`
        assert(frame_index(init.env.last(), name) is Some);
        assert(stepped.env == init.env.update(init.env.len() - 1, crate::environment::frame_set(init.env.last(), name, w)));
    }
    assert(crate::semantics::leave_scope(s1, stepped) == State { out: s1.out + crate::text::decimal(n as int) + "\n"@, ..s1 });
}

} // verus!
