//! The meaning of programs: a big-step semantics over the models of
//! statements, expressions and values.
//!
//! Every rule takes a step budget `fuel`; each rule application spends one
//! step, and a rule reached with no step left fails with
//! [`step_limit_message`]. With an ample budget this never happens for a
//! program that terminates.
use vstd::prelude::*;

use crate::ast::{Opcode, SExpr, SStmt, Type};
use crate::environment::{env_assign, env_define, env_get, frame_get, frame_set, pop_env, undefined_variable_message, Frame};
use crate::text::{decimal, line_col, min_nat};
use crate::value::{bool_of, int_of, show, truthy, Val};

verus! {

/// A user function: parameter names and body.
pub struct SFunc {
    pub params: Seq<Seq<char>>,
    pub body: Seq<SStmt>,
}

/// The state of an evaluation: the variable scopes (outermost first), the
/// defined functions, and everything printed so far.
pub struct State {
    pub env: Seq<Frame<Val>>,
    pub funcs: Frame<SFunc>,
    pub out: Seq<char>,
}

/// How the evaluation of a statement or an expression ends.
pub enum Flow {
    /// It completed with a value.
    Normal(Val),
    /// A `return` is leaving the current function with a value.
    Ret(Val),
    /// A runtime error with its message.
    Fail(Seq<char>),
}

/// The message when the step budget runs out.
pub open spec fn step_limit_message() -> Seq<char> {
    "执行步数超出上限"@
}

/// The message when integer arithmetic leaves the range of `i64`.
pub open spec fn overflow_message() -> Seq<char> {
    "整数溢出"@
}

/// The message when a variable of type `float` is declared.
pub open spec fn float_message() -> Seq<char> {
    "不支持浮点数"@
}

/// The message for reading an undefined variable, with the line and column
/// of the variable in the source text.
pub open spec fn undefined_at_message(src: Seq<u8>, start: usize, name: Seq<char>) -> Seq<char> {
    let lc = line_col(src, min_nat(start as nat, src.len()));
    let m = usize::MAX as int + 1;
    decimal(lc.0 % m) + ":"@ + decimal(lc.1 % m) + " 变量 '"@ + name + "' 未定义"@
}

/// The message for an index outside an array.
pub open spec fn bounds_message(len: int, idx: int) -> Seq<char> {
    "索引越界: 长度 "@ + decimal(len) + "，索引 "@ + decimal(idx)
}

/// The message for calling an undefined function.
pub open spec fn undefined_function_message(name: Seq<char>) -> Seq<char> {
    "函数 '"@ + name + "' 未定义"@
}

/// The message for a call with the wrong number of arguments.
pub open spec fn arity_message(name: Seq<char>, expected: int, given: int) -> Seq<char> {
    "函数 '"@ + name + "' 需要 "@ + decimal(expected) + " 个参数，提供了 "@ + decimal(given) + " 个"@
}

/// The state with a new empty innermost scope.
pub open spec fn enter_scope(st: State) -> State {
    State { env: st.env.push(Seq::empty()), ..st }
}

/// The state after leaving a scope entered from `outer`: the innermost
/// scope is dropped, the functions are those of `outer`, the output is kept.
pub open spec fn leave_scope(outer: State, inner: State) -> State {
    State { env: pop_env(inner.env), funcs: outer.funcs, out: inner.out }
}

/// The scopes after each name is defined, in order, with the corresponding
/// value.
pub open spec fn define_all(env: Seq<Frame<Val>>, names: Seq<Seq<char>>, vs: Seq<Val>) -> Seq<Frame<Val>>
    decreases names.len(),
{
    if names.len() == 0 || vs.len() == 0 {
        env
    } else {
        define_all(env_define(env, names[0], vs[0]), names.drop_first(), vs.drop_first())
    }
}

/// The initial value of a variable declared with a type; none for `float`.
pub open spec fn default_value(ty: Type) -> Option<Val> {
    match ty {
        Type::Int => Some(Val::Int(0)),
        Type::Float => None,
        Type::Bool => Some(Val::Bool(false)),
        Type::String => Some(Val::Str(Seq::empty())),
        Type::Array(_) => Some(Val::Arr(Seq::empty())),
    }
}

/// A comparison of two integers.
pub open spec fn compare(op: Opcode, a: i64, b: i64) -> bool {
    match op {
        Opcode::GreaterThan => a > b,
        Opcode::GreaterOrEqual => a >= b,
        Opcode::LessThan => a < b,
        _ => a <= b,
    }
}

/// An integer result, or the overflow error.
pub open spec fn int_result(r: Option<i64>) -> Flow {
    match r {
        Some(c) => Flow::Normal(Val::Int(c)),
        None => Flow::Fail(overflow_message()),
    }
}

/// The value of a binary operation on two evaluated operands.
pub open spec fn binop(op: Opcode, l: Val, r: Val) -> Flow {
    match op {
        Opcode::Add => match (l, r) {
            (Val::Int(a), Val::Int(b)) => int_result(a.checked_add(b)),
            (Val::Str(a), Val::Str(b)) => Flow::Normal(Val::Str(a + b)),
            (Val::Str(a), Val::Int(b)) => Flow::Normal(Val::Str(a + decimal(b as int))),
            (Val::Str(_), _) => Flow::Fail("加法：右操作数无法转换为字符串"@),
            (Val::Int(a), Val::Str(b)) => Flow::Normal(Val::Str(decimal(a as int) + b)),
            (_, Val::Str(_)) => Flow::Fail("加法：左操作数无法转换为字符串"@),
            _ => Flow::Fail("加法需要数字或字符串操作数"@),
        },
        Opcode::Sub => match (l, r) {
            (Val::Int(a), Val::Int(b)) => int_result(a.checked_sub(b)),
            _ => Flow::Fail("减法需要数字操作数"@),
        },
        Opcode::Mul => match (l, r) {
            (Val::Int(a), Val::Int(b)) => int_result(a.checked_mul(b)),
            _ => Flow::Fail("乘法需要数字操作数"@),
        },
        Opcode::Div => match (l, r) {
            (Val::Int(a), Val::Int(b)) => if b == 0 {
                Flow::Fail("除数不能为零"@)
            } else {
                int_result(a.checked_div(b))
            },
            _ => Flow::Fail("除法需要数字操作数"@),
        },
        Opcode::GreaterThan | Opcode::GreaterOrEqual | Opcode::LessThan | Opcode::LessOrEqual => match (l, r) {
            (Val::Int(a), Val::Int(b)) => Flow::Normal(Val::Bool(compare(op, a, b))),
            _ => Flow::Fail("比较需要数字操作数"@),
        },
        Opcode::Equal => match (l, r) {
            (Val::Int(a), Val::Int(b)) => Flow::Normal(Val::Bool(a == b)),
            (Val::Bool(a), Val::Bool(b)) => Flow::Normal(Val::Bool(a == b)),
            (Val::Str(a), Val::Str(b)) => Flow::Normal(Val::Bool(a == b)),
            _ => Flow::Fail("相等比较需要相同类型的操作数"@),
        },
        Opcode::NotEqual => match (l, r) {
            (Val::Int(a), Val::Int(b)) => Flow::Normal(Val::Bool(a != b)),
            (Val::Bool(a), Val::Bool(b)) => Flow::Normal(Val::Bool(a != b)),
            (Val::Str(a), Val::Str(b)) => Flow::Normal(Val::Bool(a != b)),
            _ => Flow::Fail("不等比较需要相同类型的操作数"@),
        },
        Opcode::And => Flow::Normal(Val::Bool(truthy(l) && truthy(r))),
        Opcode::Or => Flow::Normal(Val::Bool(truthy(l) || truthy(r))),
    }
}

/// The value of the built-in `len` on an evaluated argument: the number of
/// elements of an array, or the number of UTF-8 bytes of a string.
pub open spec fn len_of(v: Val) -> Flow {
    match v {
        Val::Arr(a) => Flow::Normal(Val::Int(a.len() as i64)),
        Val::Str(s) => Flow::Normal(Val::Int((vstd::utf8::encode_utf8(s).len() as usize) as i64)),
        _ => Flow::Fail("len 只支持数组或字符串"@),
    }
}

/// The condition `name <= end` that a `for` loop tests before each round.
pub open spec fn for_condition(name: Seq<char>, end: SExpr) -> SExpr {
    SExpr::Op(Opcode::LessOrEqual, Box::new(SExpr::Id(name, 0)), Box::new(end))
}

/// The statement `name := name + 1` that ends each round of a `for` loop.
pub open spec fn for_step(name: Seq<char>) -> SStmt {
    SStmt::Assign(
        SExpr::Id(name, 0),
        SExpr::Op(Opcode::Add, Box::new(SExpr::Id(name, 0)), Box::new(SExpr::Num(1))),
    )
}

/// Evaluates an expression.
pub open spec fn sem_expr(fuel: nat, src: Seq<u8>, st: State, e: SExpr) -> (State, Flow)
    decreases fuel, 1nat,
{
    if fuel == 0 {
        (st, Flow::Fail(step_limit_message()))
    } else {
        match e {
            SExpr::Id(name, start) => sem_id(src, st, name, start),
            SExpr::Num(n) => (st, Flow::Normal(Val::Int(n as i64))),
            SExpr::Str(s) => (st, Flow::Normal(Val::Str(s))),
            SExpr::BoolLit(b) => (st, Flow::Normal(Val::Bool(b))),
            SExpr::Op(op, l, r) => sem_op((fuel - 1) as nat, src, st, op, *l, *r),
            SExpr::Not(x) => sem_not((fuel - 1) as nat, src, st, *x),
            SExpr::Neg(x) => sem_neg((fuel - 1) as nat, src, st, *x),
            SExpr::Call(name, args) => if name == "len"@ {
                sem_len_call((fuel - 1) as nat, src, st, args)
            } else {
                sem_user_call((fuel - 1) as nat, src, st, name, args)
            },
            SExpr::ArrayLit(items) => sem_array((fuel - 1) as nat, src, st, items),
            SExpr::Index(a, i) => sem_index((fuel - 1) as nat, src, st, *a, *i),
        }
    }
}

/// Reads a variable.
pub open spec fn sem_id(src: Seq<u8>, st: State, name: Seq<char>, start: usize) -> (State, Flow) {
    match env_get(st.env, name) {
        Some(v) => (st, Flow::Normal(v)),
        None => (st, Flow::Fail(undefined_at_message(src, start, name))),
    }
}

/// A binary operation: `and` and `or` evaluate their right operand only
/// when the left one does not decide the result; the other operators
/// evaluate both operands, left first.
pub open spec fn sem_op(f: nat, src: Seq<u8>, st: State, op: Opcode, l: SExpr, r: SExpr) -> (State, Flow)
    decreases f, 2nat,
{
    let (s1, a) = sem_expr(f, src, st, l);
    match a {
        Flow::Normal(lv) => match op {
            Opcode::And => if !truthy(lv) {
                (s1, Flow::Normal(Val::Bool(false)))
            } else {
                let (s2, b) = sem_expr(f, src, s1, r);
                match b {
                    Flow::Normal(rv) => (s2, Flow::Normal(Val::Bool(truthy(rv)))),
                    _ => (s2, b),
                }
            },
            Opcode::Or => if truthy(lv) {
                (s1, Flow::Normal(Val::Bool(true)))
            } else {
                let (s2, b) = sem_expr(f, src, s1, r);
                match b {
                    Flow::Normal(rv) => (s2, Flow::Normal(Val::Bool(truthy(rv)))),
                    _ => (s2, b),
                }
            },
            _ => {
                let (s2, b) = sem_expr(f, src, s1, r);
                match b {
                    Flow::Normal(rv) => (s2, binop(op, lv, rv)),
                    _ => (s2, b),
                }
            },
        },
        _ => (s1, a),
    }
}

/// Logical negation of a boolean.
pub open spec fn sem_not(f: nat, src: Seq<u8>, st: State, x: SExpr) -> (State, Flow)
    decreases f, 2nat,
{
    let (s1, a) = sem_expr(f, src, st, x);
    match a {
        Flow::Normal(v) => match bool_of(v) {
            Some(b) => (s1, Flow::Normal(Val::Bool(!b))),
            None => (s1, Flow::Fail("逻辑非需要布尔操作数"@)),
        },
        _ => (s1, a),
    }
}

/// Arithmetic negation of an integer.
pub open spec fn sem_neg(f: nat, src: Seq<u8>, st: State, x: SExpr) -> (State, Flow)
    decreases f, 2nat,
{
    let (s1, a) = sem_expr(f, src, st, x);
    match a {
        Flow::Normal(v) => match v {
            Val::Int(i) => if i == i64::MIN {
                (s1, Flow::Fail(overflow_message()))
            } else {
                (s1, Flow::Normal(Val::Int(-i as i64)))
            },
            _ => (s1, Flow::Fail("负数只能应用于数字"@)),
        },
        _ => (s1, a),
    }
}

/// A call of the built-in `len`.
pub open spec fn sem_len_call(f: nat, src: Seq<u8>, st: State, args: Seq<SExpr>) -> (State, Flow)
    decreases f, 2nat,
{
    if args.len() != 1 {
        (st, Flow::Fail("len 需要 1 个参数"@))
    } else {
        let (s1, a) = sem_expr(f, src, st, args[0]);
        match a {
            Flow::Normal(v) => (s1, len_of(v)),
            _ => (s1, a),
        }
    }
}

/// A call of a user function: the function is looked up, the number of
/// arguments checked, the arguments evaluated, and the body run.
pub open spec fn sem_user_call(f: nat, src: Seq<u8>, st: State, name: Seq<char>, args: Seq<SExpr>) -> (State, Flow)
    decreases f, 3nat,
{
    match frame_get(st.funcs, name) {
        None => (st, Flow::Fail(undefined_function_message(name))),
        Some(func) => if args.len() != func.params.len() {
            (st, Flow::Fail(arity_message(name, func.params.len() as int, args.len() as int)))
        } else {
            let (s1, r) = sem_exprs(f, src, st, args);
            match r {
                Ok(vs) => sem_body(f, src, s1, func, vs),
                Err(stop) => (s1, stop),
            }
        },
    }
}

/// Runs a function body in a new scope nested in the caller's, with each
/// parameter bound to its argument and the caller's functions; a `return`
/// gives the value of the call, and a body that ends without one gives null.
pub open spec fn sem_body(f: nat, src: Seq<u8>, s1: State, func: SFunc, vs: Seq<Val>) -> (State, Flow)
    decreases f, 2nat,
{
    let entered = enter_scope(s1);
    let bound = State { env: define_all(entered.env, func.params, vs), ..entered };
    let (s2, res) = sem_stmts(f, src, bound, func.body);
    let s3 = leave_scope(s1, s2);
    match res {
        Flow::Normal(_) => (s3, Flow::Normal(Val::Null)),
        Flow::Ret(v) => (s3, Flow::Normal(v)),
        Flow::Fail(m) => (s3, Flow::Fail(m)),
    }
}

/// An array literal.
pub open spec fn sem_array(f: nat, src: Seq<u8>, st: State, items: Seq<SExpr>) -> (State, Flow)
    decreases f, 2nat,
{
    let (s1, r) = sem_exprs(f, src, st, items);
    match r {
        Ok(vs) => (s1, Flow::Normal(Val::Arr(vs))),
        Err(stop) => (s1, stop),
    }
}

/// Reads an element of an array.
pub open spec fn sem_index(f: nat, src: Seq<u8>, st: State, a: SExpr, i: SExpr) -> (State, Flow)
    decreases f, 2nat,
{
    let (s1, x) = sem_expr(f, src, st, a);
    match x {
        Flow::Normal(av) => {
            let (s2, y) = sem_expr(f, src, s1, i);
            match y {
                Flow::Normal(iv) => (s2, index_of(av, iv)),
                _ => (s2, y),
            }
        },
        _ => (s1, x),
    }
}

/// The element of an evaluated array at an evaluated index.
pub open spec fn index_of(av: Val, iv: Val) -> Flow {
    match av {
        Val::Arr(items) => match int_of(iv) {
            Some(k) => if k < 0 || k >= items.len() {
                Flow::Fail(bounds_message(items.len() as int, k as int))
            } else {
                Flow::Normal(items[k as int])
            },
            None => Flow::Fail("索引必须是整数"@),
        },
        _ => Flow::Fail("索引操作需要数组"@),
    }
}

/// Evaluates a list of expressions from left to right; `Err` holds how an
/// evaluation that did not complete ended.
pub open spec fn sem_exprs(fuel: nat, src: Seq<u8>, st: State, es: Seq<SExpr>) -> (State, Result<Seq<Val>, Flow>)
    decreases fuel, 1nat,
{
    if fuel == 0 {
        (st, Err(Flow::Fail(step_limit_message())))
    } else {
        exprs_from(((fuel - 1) as nat), src, st, es, Seq::empty())
    }
}

/// Evaluates the rest `es` of a list whose first values are `done`.
pub open spec fn exprs_from(f: nat, src: Seq<u8>, st: State, es: Seq<SExpr>, done: Seq<Val>) -> (State, Result<Seq<Val>, Flow>)
    decreases f, es.len() + 1,
{
    if es.len() == 0 {
        (st, Ok(done))
    } else {
        let (s1, a) = sem_expr(f, src, st, es[0]);
        match a {
            Flow::Normal(v) => exprs_from(f, src, s1, es.drop_first(), done.push(v)),
            _ => (s1, Err(a)),
        }
    }
}

/// Runs a statement.
pub open spec fn sem_stmt(fuel: nat, src: Seq<u8>, st: State, s: SStmt) -> (State, Flow)
    decreases fuel, 1nat,
{
    if fuel == 0 {
        (st, Flow::Fail(step_limit_message()))
    } else {
        match s {
            SStmt::Assign(lhs, rhs) => sem_assign((fuel - 1) as nat, src, st, lhs, rhs),
            SStmt::VarDecl(names, ty) => sem_var_decl(st, names, ty),
            SStmt::Expr(e) => sem_expr((fuel - 1) as nat, src, st, e),
            SStmt::If(c, t) => sem_if((fuel - 1) as nat, src, st, c, t, Seq::empty(), false),
            SStmt::IfElse(c, t, e) => sem_if((fuel - 1) as nat, src, st, c, t, e, true),
            SStmt::While(c, b) => sem_while((fuel - 1) as nat, src, st, c, b),
            SStmt::Block(b) => sem_block((fuel - 1) as nat, src, st, b),
            SStmt::Print(e) => sem_print((fuel - 1) as nat, src, st, e),
            SStmt::For(name, start, end, body) => sem_for_stmt((fuel - 1) as nat, src, st, name, start, end, body),
            SStmt::FuncDef(name, params, _, _, body) => (
                State { funcs: frame_set(st.funcs, name, SFunc { params, body }), ..st },
                Flow::Normal(Val::Null),
            ),
            SStmt::Return(x) => match x {
                None => (st, Flow::Ret(Val::Null)),
                Some(e) => sem_return((fuel - 1) as nat, src, st, e),
            },
        }
    }
}

/// An assignment: the right side is evaluated first, then the target.
pub open spec fn sem_assign(f: nat, src: Seq<u8>, st: State, lhs: SExpr, rhs: SExpr) -> (State, Flow)
    decreases f, 3nat,
{
    let (s1, a) = sem_expr(f, src, st, rhs);
    match a {
        Flow::Normal(v) => match lhs {
            SExpr::Id(name, _) => assign_var(s1, name, v, v),
            SExpr::Index(ae, ie) => sem_assign_index(f, src, s1, *ae, *ie, v),
            _ => (s1, Flow::Fail("赋值左侧必须是变量或索引"@)),
        },
        _ => (s1, a),
    }
}

/// Gives a variable a new value; completes with `result`.
pub open spec fn assign_var(st: State, name: Seq<char>, v: Val, result: Val) -> (State, Flow) {
    match env_assign(st.env, name, v) {
        Some(env) => (State { env, ..st }, Flow::Normal(result)),
        None => (st, Flow::Fail(undefined_variable_message(name))),
    }
}

/// Assigns `v` to an element of an array held by a variable: the array
/// expression and the index are evaluated, then the variable gets the
/// updated array.
pub open spec fn sem_assign_index(f: nat, src: Seq<u8>, s1: State, ae: SExpr, ie: SExpr, v: Val) -> (State, Flow)
    decreases f, 2nat,
{
    let (s2, x) = sem_expr(f, src, s1, ae);
    match x {
        Flow::Normal(av) => {
            let (s3, y) = sem_expr(f, src, s2, ie);
            match y {
                Flow::Normal(iv) => match int_of(iv) {
                    None => (s3, Flow::Fail("索引必须是整数"@)),
                    Some(k) => match av {
                        Val::Arr(items) => if k < 0 || k >= items.len() {
                            (s3, Flow::Fail(bounds_message(items.len() as int, k as int)))
                        } else {
                            match ae {
                                SExpr::Id(var, _) => assign_var(s3, var, Val::Arr(items.update(k as int, v)), Val::Null),
                                _ => (s3, Flow::Fail("索引赋值暂不支持复杂左值"@)),
                            }
                        },
                        _ => (s3, Flow::Fail("索引赋值需要数组"@)),
                    },
                },
                _ => (s3, y),
            }
        },
        _ => (s2, x),
    }
}

/// Declares variables in the innermost scope with the initial value of
/// their type.
pub open spec fn sem_var_decl(st: State, names: Seq<Seq<char>>, ty: Type) -> (State, Flow) {
    match default_value(ty) {
        Some(d) => (
            State { env: define_all(st.env, names, Seq::new(names.len(), |i: int| d)), ..st },
            Flow::Normal(Val::Null),
        ),
        None => (st, Flow::Fail(float_message())),
    }
}

/// A conditional: the first list runs when the condition is true; when it
/// is false, the second list runs if `has_else`.
pub open spec fn sem_if(f: nat, src: Seq<u8>, st: State, c: SExpr, t: Seq<SStmt>, e: Seq<SStmt>, has_else: bool) -> (State, Flow)
    decreases f, 2nat,
{
    let (s1, a) = sem_expr(f, src, st, c);
    match a {
        Flow::Normal(v) => if truthy(v) || has_else {
            let (s2, r) = sem_stmts(f, src, s1, if truthy(v) { t } else { e });
            match r {
                Flow::Normal(_) => (s2, Flow::Normal(Val::Null)),
                _ => (s2, r),
            }
        } else {
            (s1, Flow::Normal(Val::Null))
        },
        _ => (s1, a),
    }
}

/// A block: its statements run in a new scope with the enclosing functions;
/// afterwards the scope is left and the enclosing functions are restored.
pub open spec fn sem_block(f: nat, src: Seq<u8>, st: State, b: Seq<SStmt>) -> (State, Flow)
    decreases f, 2nat,
{
    let (s2, r) = sem_stmts(f, src, enter_scope(st), b);
    (leave_scope(st, s2), r)
}

/// Printing a value and a line feed.
pub open spec fn sem_print(f: nat, src: Seq<u8>, st: State, e: SExpr) -> (State, Flow)
    decreases f, 2nat,
{
    let (s1, a) = sem_expr(f, src, st, e);
    match a {
        Flow::Normal(v) => (State { out: s1.out + show(v) + "\n"@, ..s1 }, Flow::Normal(Val::Null)),
        _ => (s1, a),
    }
}

/// `return` with a value.
pub open spec fn sem_return(f: nat, src: Seq<u8>, st: State, e: SExpr) -> (State, Flow)
    decreases f, 2nat,
{
    let (s1, a) = sem_expr(f, src, st, e);
    match a {
        Flow::Normal(v) => (s1, Flow::Ret(v)),
        _ => (s1, a),
    }
}

/// A `for` statement: the start is evaluated in the enclosing scope and must
/// be an integer; the rounds run in a new scope holding the loop variable.
pub open spec fn sem_for_stmt(f: nat, src: Seq<u8>, st: State, name: Seq<char>, start: SExpr, end: SExpr, body: Seq<SStmt>) -> (State, Flow)
    decreases f, 2nat,
{
    let (s1, a) = sem_expr(f, src, st, start);
    match a {
        Flow::Normal(v) => match int_of(v) {
            Some(n) => {
                let entered = enter_scope(s1);
                let init = State { env: env_define(entered.env, name, Val::Int(n)), ..entered };
                let (s2, r) = sem_for(f, src, init, name, end, body);
                (leave_scope(s1, s2), r)
            },
            None => (s1, Flow::Fail("for 循环起始值必须是整数"@)),
        },
        _ => (s1, a),
    }
}

/// Runs a `while` loop: the condition is tested before each round, and each
/// round spends one step.
pub open spec fn sem_while(fuel: nat, src: Seq<u8>, st: State, c: SExpr, b: Seq<SStmt>) -> (State, Flow)
    decreases fuel, 1nat,
{
    if fuel == 0 {
        (st, Flow::Fail(step_limit_message()))
    } else {
        let f = (fuel - 1) as nat;
        let (s1, a) = sem_expr(f, src, st, c);
        match a {
            Flow::Normal(v) => if !truthy(v) {
                (s1, Flow::Normal(Val::Null))
            } else {
                let (s2, r) = sem_stmts(f, src, s1, b);
                match r {
                    Flow::Normal(_) => sem_while(f, src, s2, c, b),
                    _ => (s2, r),
                }
            },
            _ => (s1, a),
        }
    }
}

/// Runs the rounds of a `for` loop over the variable `name` up to the value
/// of `end`, which is evaluated again before each round.
pub open spec fn sem_for(fuel: nat, src: Seq<u8>, st: State, name: Seq<char>, end: SExpr, body: Seq<SStmt>) -> (State, Flow)
    decreases fuel, 1nat,
{
    if fuel == 0 {
        (st, Flow::Fail(step_limit_message()))
    } else {
        let f = (fuel - 1) as nat;
        let (s1, a) = sem_expr(f, src, st, for_condition(name, end));
        match a {
            Flow::Normal(v) => if !truthy(v) {
                (s1, Flow::Normal(Val::Null))
            } else {
                let (s2, r) = sem_stmts(f, src, s1, body);
                match r {
                    Flow::Normal(_) => {
                        let (s3, u) = sem_stmt(f, src, s2, for_step(name));
                        match u {
                            Flow::Normal(_) => sem_for(f, src, s3, name, end, body),
                            _ => (s3, u),
                        }
                    },
                    _ => (s2, r),
                }
            },
            _ => (s1, a),
        }
    }
}

/// Runs a list of statements in order; it completes with the value of the
/// last one (null for an empty list) and stops at the first that does not
/// complete.
pub open spec fn sem_stmts(fuel: nat, src: Seq<u8>, st: State, ss: Seq<SStmt>) -> (State, Flow)
    decreases fuel, 1nat,
{
    if fuel == 0 {
        (st, Flow::Fail(step_limit_message()))
    } else {
        stmts_from(((fuel - 1) as nat), src, st, ss, Val::Null)
    }
}

/// Runs the rest `ss` of a list after a statement that completed with
/// `last`.
pub open spec fn stmts_from(f: nat, src: Seq<u8>, st: State, ss: Seq<SStmt>, last: Val) -> (State, Flow)
    decreases f, ss.len() + 1,
{
    if ss.len() == 0 {
        (st, Flow::Normal(last))
    } else {
        let (s1, r) = sem_stmt(f, src, st, ss[0]);
        match r {
            Flow::Normal(v) => stmts_from(f, src, s1, ss.drop_first(), v),
            _ => (s1, r),
        }
    }
}

} // verus!
