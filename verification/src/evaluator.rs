//! The interpreter: runs statements against an environment, with every
//! result stated by the semantics in [`crate::semantics`].
use vstd::prelude::*;

use crate::ast::{
    copy_params, lemma_exprs_view, lemma_stmts_view, params_view, stmts_view, Expr, Opcode, SExpr, SStmt,
    Stmt, Type,
};
use crate::environment::{
    env_assign, env_define, frame_index, frame_set, lemma_frame_index, undefined_variable_message, Environment,
    Frame,
};
use crate::semantics::{
    arity_message, assign_var, binop, bounds_message, default_value, define_all, exprs_from, for_condition,
    for_step, index_of, int_result, len_of, overflow_message, sem_array, sem_assign, sem_assign_index, sem_block,
    sem_body, sem_expr, sem_exprs, sem_for, sem_for_stmt, sem_id, sem_if, sem_index, sem_len_call, sem_neg,
    sem_not, sem_op, sem_print, sem_return, sem_stmt, sem_stmts, sem_user_call, sem_var_decl, sem_while,
    stmts_from, undefined_at_message, undefined_function_message, Flow, SFunc, State,
};
use crate::text::{decimal, get_line_col, push_char, push_count, push_decimal, str_eq};
use crate::value::{lemma_vals, lemma_vals_push, lemma_vals_update, show, truthy, vals, Val, Value};

verus! {

/// A function's parameter list.
pub type ParamList = Vec<(String, Type)>;

/// A function's body.
pub type FuncBody = Vec<Stmt>;

/// A defined function: parameters, return type, body, and the start and
/// end offsets of its definition.
pub type FuncEntry = (ParamList, Type, FuncBody, usize, usize);

/// How an evaluation that does not complete ends.
#[derive(Debug)]
pub enum EvalError {
    /// A runtime error with its message.
    Runtime(String),
    /// A `return` leaving a function with its value.
    Return(Value),
}

impl From<String> for EvalError {
    /// A runtime error with the given message.
    fn from(s: String) -> (r: Self) {
        EvalError::Runtime(s)
    }
}

impl vstd::std_specs::convert::FromSpecImpl<String> for EvalError {
    open spec fn obeys_from_spec() -> bool {
        true
    }

    open spec fn from_spec(v: String) -> Self {
        EvalError::Runtime(v)
    }
}

/// The model of an evaluation result.
pub open spec fn flow_of(r: Result<Value, EvalError>) -> Flow {
    match r {
        Ok(v) => Flow::Normal(v.val()),
        Err(EvalError::Runtime(m)) => Flow::Fail(m@),
        Err(EvalError::Return(v)) => Flow::Ret(v.val()),
    }
}

/// The model of the result of evaluating a list of expressions.
pub open spec fn list_of(r: Result<Vec<Value>, EvalError>) -> Result<Seq<Val>, Flow> {
    match r {
        Ok(vs) => Ok(vals(vs@)),
        Err(e) => Err(flow_of(Err(e))),
    }
}

/// The model of a table of functions.
pub open spec fn funcs_view(s: Seq<(String, FuncEntry)>) -> Frame<SFunc> {
    s.map_values(|e: (String, FuncEntry)| func_view(e))
}

/// The model of one defined function.
pub open spec fn func_view(e: (String, FuncEntry)) -> (Seq<char>, SFunc) {
    (e.0@, SFunc { params: params_view(e.1.0@), body: stmts_view(e.1.2@) })
}

/// The step budget of [`Evaluator::evaluate`].
pub const MAX_STEPS: u64 = 18446744073709551615u64;

impl EvalError {
    /// The text that printing this error shows: the message of a runtime
    /// error, or the printed value of a `return`.
    pub fn to_display_string(&self) -> (r: String)
        ensures
            r@ == match self {
                EvalError::Runtime(m) => m@,
                EvalError::Return(v) => show(v.val()),
            },
    {
        match self {
            EvalError::Runtime(m) => m.clone(),
            EvalError::Return(v) => v.to_display_string(),
        }
    }
}

fn fail(m: String) -> (r: Result<Value, EvalError>)
    ensures
        flow_of(r) == Flow::Fail(m@),
{
    Err(EvalError::Runtime(m))
}

fn fail_lit(m: &str) -> (r: Result<Value, EvalError>)
    ensures
        flow_of(r) == Flow::Fail(m@),
{
    Err(EvalError::Runtime(m.to_owned()))
}

fn overflow() -> (r: Result<Value, EvalError>)
    ensures
        flow_of(r) == Flow::Fail(overflow_message()),
{
    fail_lit("整数溢出")
}

fn int_value(r: Option<i64>) -> (res: Result<Value, EvalError>)
    ensures
        flow_of(res) == int_result(r),
{
    match r {
        Some(c) => Ok(Value::Int(c)),
        None => overflow(),
    }
}

fn bounds_error(len: usize, idx: i64) -> (r: Result<Value, EvalError>)
    ensures
        flow_of(r) == Flow::Fail(bounds_message(len as int, idx as int)),
{
    let mut m = "索引越界: 长度 ".to_owned();
    push_count(&mut m, len);
    m.append("，索引 ");
    push_decimal(&mut m, idx);
    fail(m)
}

/// The value of a binary operation on two evaluated operands.
pub fn apply_binop(op: Opcode, l: &Value, r: &Value) -> (res: Result<Value, EvalError>)
    ensures
        flow_of(res) == binop(op, l.val(), r.val()),
{
    match op {
        Opcode::Add => match (l, r) {
            (Value::Int(a), Value::Int(b)) => int_value(a.checked_add(*b)),
            (Value::String(a), Value::String(b)) => {
                let mut s = a.clone();
                s.append(b.as_str());
                Ok(Value::String(s))
            },
            (Value::String(a), Value::Int(b)) => {
                let mut s = a.clone();
                push_decimal(&mut s, *b);
                Ok(Value::String(s))
            },
            (Value::String(_), _) => fail_lit("加法：右操作数无法转换为字符串"),
            (Value::Int(a), Value::String(b)) => {
                let mut s = String::new();
                push_decimal(&mut s, *a);
                s.append(b.as_str());
                proof {
                    assert(s@ =~= decimal(*a as int) + b@);
                }
                Ok(Value::String(s))
            },
            (_, Value::String(_)) => fail_lit("加法：左操作数无法转换为字符串"),
            _ => fail_lit("加法需要数字或字符串操作数"),
        },
        Opcode::Sub => match (l, r) {
            (Value::Int(a), Value::Int(b)) => int_value(a.checked_sub(*b)),
            _ => fail_lit("减法需要数字操作数"),
        },
        Opcode::Mul => match (l, r) {
            (Value::Int(a), Value::Int(b)) => int_value(a.checked_mul(*b)),
            _ => fail_lit("乘法需要数字操作数"),
        },
        Opcode::Div => match (l, r) {
            (Value::Int(a), Value::Int(b)) => {
                if *b == 0 {
                    fail_lit("除数不能为零")
                } else {
                    int_value(a.checked_div(*b))
                }
            },
            _ => fail_lit("除法需要数字操作数"),
        },
        Opcode::GreaterThan | Opcode::GreaterOrEqual | Opcode::LessThan | Opcode::LessOrEqual => match (l, r) {
            (Value::Int(a), Value::Int(b)) => {
                let c = match op {
                    Opcode::GreaterThan => *a > *b,
                    Opcode::GreaterOrEqual => *a >= *b,
                    Opcode::LessThan => *a < *b,
                    _ => *a <= *b,
                };
                Ok(Value::Bool(c))
            },
            _ => fail_lit("比较需要数字操作数"),
        },
        Opcode::Equal => match (l, r) {
            (Value::Int(a), Value::Int(b)) => Ok(Value::Bool(*a == *b)),
            (Value::Bool(a), Value::Bool(b)) => Ok(Value::Bool(*a == *b)),
            (Value::String(a), Value::String(b)) => Ok(Value::Bool(str_eq(a.as_str(), b.as_str()))),
            _ => fail_lit("相等比较需要相同类型的操作数"),
        },
        Opcode::NotEqual => match (l, r) {
            (Value::Int(a), Value::Int(b)) => Ok(Value::Bool(*a != *b)),
            (Value::Bool(a), Value::Bool(b)) => Ok(Value::Bool(*a != *b)),
            (Value::String(a), Value::String(b)) => Ok(Value::Bool(!str_eq(a.as_str(), b.as_str()))),
            _ => fail_lit("不等比较需要相同类型的操作数"),
        },
        Opcode::And => {
            let b = l.is_truthy() && r.is_truthy();
            Ok(Value::Bool(b))
        },
        Opcode::Or => {
            let b = l.is_truthy() || r.is_truthy();
            Ok(Value::Bool(b))
        },
    }
}

/// The value of the built-in `len` on an evaluated argument.
pub fn apply_len(v: &Value) -> (res: Result<Value, EvalError>)
    ensures
        flow_of(res) == len_of(v.val()),
{
    match v {
        Value::Array(a) => {
            proof {
                lemma_vals(a@);
            }
            Ok(Value::Int(a.len() as i64))
        },
        Value::String(s) => Ok(Value::Int(s.as_str().len() as i64)),
        _ => fail_lit("len 只支持数组或字符串"),
    }
}

/// The value a variable of type `ty` starts with; `None` for `float`.
pub fn default_for(ty: &Type) -> (r: Option<Value>)
    ensures
        match default_value(*ty) {
            Some(d) => r matches Some(v) && v.val() == d,
            None => r is None,
        },
{
    match ty {
        Type::Int => Some(Value::Int(0)),
        Type::Float => None,
        Type::Bool => Some(Value::Bool(false)),
        Type::String => {
            let s = String::new();
            Some(Value::String(s))
        },
        Type::Array(_) => {
            let v: Vec<Value> = Vec::new();
            proof {
                assert(vals(v@) =~= Seq::<Val>::empty());
            }
            Some(Value::Array(v))
        },
    }
}

fn find_function(funcs: &Vec<(String, FuncEntry)>, name: &str) -> (r: Option<usize>)
    ensures
        r matches Some(i) ==> frame_index(funcs_view(funcs@), name@) == Some(i as int),
        r is None ==> frame_index(funcs_view(funcs@), name@) is None,
{
    let mut i: usize = funcs.len();
    proof {
        assert(funcs_view(funcs@).take(funcs@.len() as int) =~= funcs_view(funcs@));
    }
    while i > 0
        invariant
            i <= funcs.len(),
            frame_index(funcs_view(funcs@), name@) == frame_index(funcs_view(funcs@).take(i as int), name@),
        decreases i,
    {
        let ghost f = funcs_view(funcs@).take(i as int);
        proof {
            assert(f.drop_last() =~= funcs_view(funcs@).take(i - 1));
        }
        if str_eq(funcs[i - 1].0.as_str(), name) {
            return Some(i - 1);
        }
        i = i - 1;
    }
    None
}

fn copy_body(b: &Vec<Stmt>) -> (r: Vec<Stmt>)
    ensures
        stmts_view(r@) == stmts_view(b@),
{
    let mut out: Vec<Stmt> = Vec::new();
    let mut i: usize = 0;
    while i < b.len()
        invariant
            i <= b.len(),
            out@.len() == i,
            forall|j: int| 0 <= j < i ==> #[trigger] out@[j].sview() == b@[j].sview(),
        decreases b.len() - i,
    {
        out.push(b[i].deep_copy());
        i = i + 1;
    }
    proof {
        crate::ast::lemma_stmts_view_ext(out@, b@);
    }
    out
}

fn copy_entry(e: &(String, FuncEntry)) -> (r: (String, FuncEntry))
    ensures
        func_view(r) == func_view(*e),
{
    (e.0.clone(), (copy_params(&e.1.0), e.1.1.duplicate(), copy_body(&e.1.2), e.1.3, e.1.4))
}

fn copy_funcs(fs: &Vec<(String, FuncEntry)>) -> (r: Vec<(String, FuncEntry)>)
    ensures
        funcs_view(r@) == funcs_view(fs@),
{
    let mut out: Vec<(String, FuncEntry)> = Vec::new();
    let mut i: usize = 0;
    while i < fs.len()
        invariant
            i <= fs.len(),
            out@.len() == i,
            forall|j: int| 0 <= j < i ==> #[trigger] func_view(out@[j]) == func_view(fs@[j]),
        decreases fs.len() - i,
    {
        out.push(copy_entry(&fs[i]));
        i = i + 1;
    }
    proof {
        assert(funcs_view(out@) =~= funcs_view(fs@));
    }
    out
}

/// The interpreter state: the variables, the source text (for error
/// positions), the defined functions and the printed output.
pub struct Evaluator {
    environment: Environment,
    source: String,
    functions: Vec<(String, FuncEntry)>,
    output: String,
}

impl Evaluator {
    /// The model of this interpreter's state.
    pub closed spec fn state(&self) -> State {
        State { env: self.environment@, funcs: funcs_view(self.functions@), out: self.output@ }
    }

    /// An interpreter always has at least one scope, so the laws of the
    /// semantics that ask for one hold of its state.
    pub proof fn lemma_scopes_nonempty(&self)
        ensures
            self.state().env.len() >= 1,
    {
        self.environment.lemma_view_nonempty();
    }

    /// The UTF-8 bytes of the source text that error positions refer to.
    pub closed spec fn src(&self) -> Seq<u8> {
        vstd::utf8::encode_utf8(self.source@)
    }

    /// An interpreter over `environment`, with no functions and no output.
    pub fn new(environment: Environment, source: String) -> (r: Self)
        ensures
            r.state() == (State { env: environment@, funcs: Seq::empty(), out: Seq::empty() }),
            r.src() == vstd::utf8::encode_utf8(source@),
    {
        let r = Evaluator { environment, source, functions: Vec::new(), output: String::new() };
        proof {
            assert(funcs_view(r.functions@) =~= Seq::empty());
        }
        r
    }

    /// Replaces the source text that error positions refer to.
    pub fn set_source(&mut self, source: String)
        ensures
            final(self).state() == old(self).state(),
            final(self).src() == vstd::utf8::encode_utf8(source@),
    {
        self.source = source;
    }

    /// Takes the output printed so far, leaving it empty.
    pub fn take_output(&mut self) -> (r: String)
        ensures
            r@ == old(self).state().out,
            final(self).state() == (State { out: Seq::empty(), ..old(self).state() }),
            final(self).src() == old(self).src(),
    {
        let mut out = String::new();
        std::mem::swap(&mut out, &mut self.output);
        out
    }

    /// Appends the printed form of the variables to `output`.
    pub fn dump_env_to_string(&self, output: &mut String)
        ensures
            final(output)@ == old(output)@ + crate::environment::dump_text(self.state().env, Seq::empty()),
    {
        self.environment.dump_to_string(output);
    }

    /// Runs the statements in order with the full step budget; the result is
    /// the value of the last statement, or how the run stopped.
    pub fn evaluate(&mut self, stmts: &[Stmt]) -> (r: Result<Value, EvalError>)
        ensures
            (final(self).state(), flow_of(r)) == sem_stmts(MAX_STEPS as nat, old(self).src(), old(self).state(), stmts_view(stmts@)),
            final(self).src() == old(self).src(),
    {
        self.run_stmts(stmts, MAX_STEPS)
    }

    /// Evaluates an expression with the full step budget.
    pub fn eval_expr(&mut self, e: &Expr) -> (r: Result<Value, EvalError>)
        ensures
            (final(self).state(), flow_of(r)) == sem_expr(MAX_STEPS as nat, old(self).src(), old(self).state(), e.sview()),
            final(self).src() == old(self).src(),
    {
        self.eval_expr_within(e, MAX_STEPS)
    }

    /// Runs a statement with the full step budget.
    pub fn execute(&mut self, s: &Stmt) -> (r: Result<Value, EvalError>)
        ensures
            (final(self).state(), flow_of(r)) == sem_stmt(MAX_STEPS as nat, old(self).src(), old(self).state(), s.sview()),
            final(self).src() == old(self).src(),
    {
        self.execute_within(s, MAX_STEPS)
    }

    /// Runs the statements in order within a budget of `fuel` steps.
    pub fn run_stmts(&mut self, stmts: &[Stmt], fuel: u64) -> (r: Result<Value, EvalError>)
        ensures
            (final(self).state(), flow_of(r)) == sem_stmts(fuel as nat, old(self).src(), old(self).state(), stmts_view(stmts@)),
            final(self).src() == old(self).src(),
        decreases fuel, 1nat,
    {
        if fuel == 0 {
            return fail_lit("执行步数超出上限");
        }
        let f = fuel - 1;
        let ghost src = self.src();
        let ghost ss = stmts_view(stmts@);
        let ghost st0 = self.state();
        proof {
            lemma_stmts_view(stmts@);
            assert(ss.skip(0) =~= ss);
        }
        let mut last = Value::Null;
        let mut i: usize = 0;
        while i < stmts.len()
            invariant
                i <= stmts@.len(),
                f == fuel - 1,
                self.src() == src,
                src == old(self).src(),
                st0 == old(self).state(),
                ss == stmts_view(stmts@),
                ss.len() == stmts@.len(),
                forall|j: int| 0 <= j < stmts@.len() ==> #[trigger] ss[j] == stmts@[j].sview(),
                sem_stmts(fuel as nat, src, st0, ss) == stmts_from(f as nat, src, self.state(), ss.skip(i as int), last.val()),
            decreases stmts@.len() - i,
        {
            let ghost rest = ss.skip(i as int);
            proof {
                assert(rest[0] == ss[i as int]);
                assert(rest.drop_first() =~= ss.skip(i + 1));
            }
            let r = self.execute_within(&stmts[i], f);
            match r {
                Ok(v) => {
                    last = v;
                },
                Err(e) => {
                    return Err(e);
                },
            }
            i = i + 1;
        }
        Ok(last)
    }

    /// Evaluates an expression within a budget of `fuel` steps.
    pub fn eval_expr_within(&mut self, e: &Expr, fuel: u64) -> (r: Result<Value, EvalError>)
        ensures
            (final(self).state(), flow_of(r)) == sem_expr(fuel as nat, old(self).src(), old(self).state(), e.sview()),
            final(self).src() == old(self).src(),
        decreases fuel, 1nat,
    {
        if fuel == 0 {
            return fail_lit("执行步数超出上限");
        }
        let f = fuel - 1;
        match e {
            Expr::Id(name, start, _) => self.eval_id(name, *start),
            Expr::Num(n, _, _) => Ok(Value::Int(*n as i64)),
            Expr::StringLit(s, _, _) => Ok(Value::String(s.clone())),
            Expr::BoolLit(b, _, _) => Ok(Value::Bool(*b)),
            Expr::Op(op, l, r) => self.eval_op(*op, l, r, f),
            Expr::Not(x) => self.eval_not(x, f),
            Expr::Neg(x, _, _) => self.eval_neg(x, f),
            Expr::Call(name, args, _, _) => {
                proof {
                    reveal_strlit("len");
                }
                if str_eq(name.as_str(), "len") {
                    self.eval_len_call(args, f)
                } else {
                    self.eval_user_call(name, args, f)
                }
            },
            Expr::ArrayLit(items, _, _) => self.eval_array(items, f),
            Expr::Index(a, i, _, _) => self.eval_index(a, i, f),
        }
    }

    fn eval_id(&mut self, name: &String, start: usize) -> (r: Result<Value, EvalError>)
        ensures
            (final(self).state(), flow_of(r)) == sem_id(old(self).src(), old(self).state(), name@, start),
            final(self).src() == old(self).src(),
    {
        match self.environment.get(name.as_str()) {
            Some(v) => Ok(v),
            None => {
                let (line, col) = get_line_col(self.source.as_str(), start);
                let mut m = String::new();
                push_count(&mut m, line);
                m.append(":");
                push_count(&mut m, col);
                m.append(" 变量 '");
                m.append(name.as_str());
                m.append("' 未定义");
                proof {
                    assert(m@ =~= undefined_at_message(self.src(), start, name@));
                }
                fail(m)
            },
        }
    }

    fn eval_op(&mut self, op: Opcode, l: &Expr, r: &Expr, f: u64) -> (res: Result<Value, EvalError>)
        ensures
            (final(self).state(), flow_of(res)) == sem_op(f as nat, old(self).src(), old(self).state(), op, l.sview(), r.sview()),
            final(self).src() == old(self).src(),
        decreases f, 2nat,
    {
        let lv = match self.eval_expr_within(l, f) {
            Ok(v) => v,
            Err(e) => {
                return Err(e);
            },
        };
        match op {
            Opcode::And => {
                if !lv.is_truthy() {
                    Ok(Value::Bool(false))
                } else {
                    match self.eval_expr_within(r, f) {
                        Ok(rv) => Ok(Value::Bool(rv.is_truthy())),
                        Err(e) => Err(e),
                    }
                }
            },
            Opcode::Or => {
                if lv.is_truthy() {
                    Ok(Value::Bool(true))
                } else {
                    match self.eval_expr_within(r, f) {
                        Ok(rv) => Ok(Value::Bool(rv.is_truthy())),
                        Err(e) => Err(e),
                    }
                }
            },
            _ => {
                match self.eval_expr_within(r, f) {
                    Ok(rv) => apply_binop(op, &lv, &rv),
                    Err(e) => Err(e),
                }
            },
        }
    }

    fn eval_not(&mut self, x: &Expr, f: u64) -> (res: Result<Value, EvalError>)
        ensures
            (final(self).state(), flow_of(res)) == sem_not(f as nat, old(self).src(), old(self).state(), x.sview()),
            final(self).src() == old(self).src(),
        decreases f, 2nat,
    {
        match self.eval_expr_within(x, f) {
            Ok(v) => match v.as_bool() {
                Some(b) => Ok(Value::Bool(!b)),
                None => fail_lit("逻辑非需要布尔操作数"),
            },
            Err(e) => Err(e),
        }
    }

    fn eval_neg(&mut self, x: &Expr, f: u64) -> (res: Result<Value, EvalError>)
        ensures
            (final(self).state(), flow_of(res)) == sem_neg(f as nat, old(self).src(), old(self).state(), x.sview()),
            final(self).src() == old(self).src(),
        decreases f, 2nat,
    {
        match self.eval_expr_within(x, f) {
            Ok(v) => match v {
                Value::Int(i) => {
                    if i == i64::MIN {
                        overflow()
                    } else {
                        Ok(Value::Int(-i))
                    }
                },
                _ => fail_lit("负数只能应用于数字"),
            },
            Err(e) => Err(e),
        }
    }

    fn eval_len_call(&mut self, args: &Vec<Expr>, f: u64) -> (res: Result<Value, EvalError>)
        ensures
            (final(self).state(), flow_of(res)) == sem_len_call(f as nat, old(self).src(), old(self).state(), crate::ast::exprs_view(args@)),
            final(self).src() == old(self).src(),
        decreases f, 2nat,
    {
        proof {
            lemma_exprs_view(args@);
        }
        if args.len() != 1 {
            return fail_lit("len 需要 1 个参数");
        }
        match self.eval_expr_within(&args[0], f) {
            Ok(v) => apply_len(&v),
            Err(e) => Err(e),
        }
    }

    fn eval_user_call(&mut self, name: &String, args: &Vec<Expr>, f: u64) -> (res: Result<Value, EvalError>)
        ensures
            (final(self).state(), flow_of(res)) == sem_user_call(f as nat, old(self).src(), old(self).state(), name@, crate::ast::exprs_view(args@)),
            final(self).src() == old(self).src(),
        decreases f, 3nat,
    {
        proof {
            lemma_exprs_view(args@);
        }
        match find_function(&self.functions, name.as_str()) {
            None => {
                let mut m = "函数 '".to_owned();
                m.append(name.as_str());
                m.append("' 未定义");
                proof {
                    assert(m@ =~= undefined_function_message(name@));
                }
                fail(m)
            },
            Some(idx) => {
                proof {
                    lemma_frame_index(funcs_view(self.functions@), name@);
                    assert(funcs_view(self.functions@)[idx as int] == func_view(self.functions@[idx as int]));
                }
                let params = copy_params(&self.functions[idx].1.0);
                proof {
                    assert(params_view(params@).len() == params@.len());
                }
                if args.len() != params.len() {
                    let mut m = "函数 '".to_owned();
                    m.append(name.as_str());
                    m.append("' 需要 ");
                    push_count(&mut m, params.len());
                    m.append(" 个参数，提供了 ");
                    push_count(&mut m, args.len());
                    m.append(" 个");
                    proof {
                        assert(m@ =~= arity_message(name@, params@.len() as int, args@.len() as int));
                    }
                    return fail(m);
                }
                let body = copy_body(&self.functions[idx].1.2);
                let ghost func = SFunc { params: params_view(params@), body: stmts_view(body@) };
                match self.eval_list(args, f) {
                    Ok(vs) => self.run_body(&params, &body, &vs, f, Ghost(func)),
                    Err(e) => Err(e),
                }
            },
        }
    }

    fn run_body(
        &mut self,
        params: &Vec<(String, Type)>,
        body: &Vec<Stmt>,
        vs: &Vec<Value>,
        f: u64,
        Ghost(func): Ghost<SFunc>,
    ) -> (res: Result<Value, EvalError>)
        requires
            func == (SFunc { params: params_view(params@), body: stmts_view(body@) }),
        ensures
            (final(self).state(), flow_of(res)) == sem_body(f as nat, old(self).src(), old(self).state(), func, vals(vs@)),
            final(self).src() == old(self).src(),
        decreases f, 2nat,
    {
        let saved = copy_funcs(&self.functions);
        self.environment.push_scope();
        self.bind_params(params, vs);
        let r = self.run_stmts(body.as_slice(), f);
        self.environment.pop_scope();
        self.functions = saved;
        match r {
            Ok(_) => Ok(Value::Null),
            Err(EvalError::Return(v)) => Ok(v),
            Err(e) => Err(e),
        }
    }

    fn bind_params(&mut self, params: &Vec<(String, Type)>, vs: &Vec<Value>)
        ensures
            final(self).state() == (State {
                env: define_all(old(self).state().env, params_view(params@), vals(vs@)),
                ..old(self).state()
            }),
            final(self).src() == old(self).src(),
    {
        let ghost names = params_view(params@);
        let ghost values = vals(vs@);
        proof {
            lemma_vals(vs@);
            assert(names.skip(0) =~= names);
            assert(values.skip(0) =~= values);
        }
        let mut i: usize = 0;
        while i < params.len() && i < vs.len()
            invariant
                i <= params@.len(),
                i <= vs@.len(),
                names == params_view(params@),
                names.len() == params@.len(),
                values == vals(vs@),
                values.len() == vs@.len(),
                forall|j: int| 0 <= j < vs@.len() ==> #[trigger] values[j] == vs@[j].val(),
                self.src() == old(self).src(),
                self.functions@ == old(self).functions@,
                self.output@ == old(self).output@,
                define_all(old(self).state().env, names, values) == define_all(
                    self.environment@,
                    names.skip(i as int),
                    values.skip(i as int),
                ),
            decreases params@.len() - i,
        {
            let v = vs[i].deep_copy();
            proof {
                assert(names.skip(i as int)[0] == params@[i as int].0@);
                assert(values.skip(i as int)[0] == vs@[i as int].val());
                assert(names.skip(i as int).drop_first() =~= names.skip(i + 1));
                assert(values.skip(i as int).drop_first() =~= values.skip(i + 1));
            }
            self.environment.define(params[i].0.as_str(), v);
            i = i + 1;
        }
        proof {
            assert(names.skip(i as int).len() == 0 || values.skip(i as int).len() == 0);
        }
    }

    fn eval_array(&mut self, items: &Vec<Expr>, f: u64) -> (res: Result<Value, EvalError>)
        ensures
            (final(self).state(), flow_of(res)) == sem_array(f as nat, old(self).src(), old(self).state(), crate::ast::exprs_view(items@)),
            final(self).src() == old(self).src(),
        decreases f, 2nat,
    {
        match self.eval_list(items, f) {
            Ok(vs) => Ok(Value::Array(vs)),
            Err(e) => Err(e),
        }
    }

    fn eval_index(&mut self, a: &Expr, i: &Expr, f: u64) -> (res: Result<Value, EvalError>)
        ensures
            (final(self).state(), flow_of(res)) == sem_index(f as nat, old(self).src(), old(self).state(), a.sview(), i.sview()),
            final(self).src() == old(self).src(),
        decreases f, 2nat,
    {
        let av = match self.eval_expr_within(a, f) {
            Ok(v) => v,
            Err(e) => {
                return Err(e);
            },
        };
        let iv = match self.eval_expr_within(i, f) {
            Ok(v) => v,
            Err(e) => {
                return Err(e);
            },
        };
        index_value(&av, &iv)
    }

    /// Evaluates a list of expressions from left to right within a budget of
    /// `fuel` steps.
    pub fn eval_list(&mut self, es: &Vec<Expr>, fuel: u64) -> (r: Result<Vec<Value>, EvalError>)
        ensures
            (final(self).state(), list_of(r)) == sem_exprs(fuel as nat, old(self).src(), old(self).state(), crate::ast::exprs_view(es@)),
            final(self).src() == old(self).src(),
        decreases fuel, 1nat,
    {
        if fuel == 0 {
            return Err(EvalError::Runtime("执行步数超出上限".to_owned()));
        }
        let f = fuel - 1;
        let ghost src = self.src();
        let ghost xs = crate::ast::exprs_view(es@);
        let ghost st0 = self.state();
        proof {
            lemma_exprs_view(es@);
            assert(xs.skip(0) =~= xs);
        }
        let mut out: Vec<Value> = Vec::new();
        proof {
            assert(vals(out@) =~= Seq::<Val>::empty());
        }
        let mut i: usize = 0;
        while i < es.len()
            invariant
                i <= es@.len(),
                f == fuel - 1,
                self.src() == src,
                src == old(self).src(),
                st0 == old(self).state(),
                xs == crate::ast::exprs_view(es@),
                xs.len() == es@.len(),
                forall|j: int| 0 <= j < es@.len() ==> #[trigger] xs[j] == es@[j].sview(),
                sem_exprs(fuel as nat, src, st0, xs) == exprs_from(f as nat, src, self.state(), xs.skip(i as int), vals(out@)),
            decreases es@.len() - i,
        {
            let ghost rest = xs.skip(i as int);
            proof {
                assert(rest[0] == xs[i as int]);
                assert(rest.drop_first() =~= xs.skip(i + 1));
            }
            let r = self.eval_expr_within(&es[i], f);
            match r {
                Ok(v) => {
                    let ghost before = out@;
                    proof {
                        lemma_vals_push(before, v);
                    }
                    out.push(v);
                },
                Err(e) => {
                    return Err(e);
                },
            }
            i = i + 1;
        }
        Ok(out)
    }

    /// Runs a statement within a budget of `fuel` steps.
    pub fn execute_within(&mut self, s: &Stmt, fuel: u64) -> (r: Result<Value, EvalError>)
        ensures
            (final(self).state(), flow_of(r)) == sem_stmt(fuel as nat, old(self).src(), old(self).state(), s.sview()),
            final(self).src() == old(self).src(),
        decreases fuel, 1nat,
    {
        if fuel == 0 {
            return fail_lit("执行步数超出上限");
        }
        let f = fuel - 1;
        match s {
            Stmt::Assign(lhs, rhs) => self.exec_assign(lhs, rhs, f),
            Stmt::VarDecl(names, ty) => self.exec_var_decl(names, ty),
            Stmt::Expr(e) => self.eval_expr_within(e, f),
            Stmt::If(c, t) => {
                let none: Vec<Stmt> = Vec::new();
                proof {
                    assert(stmts_view(none@) =~= Seq::<SStmt>::empty());
                }
                self.exec_if(c, t, &none, false, f)
            },
            Stmt::IfElse(c, t, e) => self.exec_if(c, t, e, true, f),
            Stmt::While(c, b) => self.run_while(c, b.as_slice(), f),
            Stmt::Block(b) => self.exec_block(b, f),
            Stmt::Print(e) => self.exec_print(e, f),
            Stmt::For(name, start, end, body) => self.exec_for(name, start, end, body, f),
            Stmt::FuncDef(name, params, ret, body, start, end) => {
                let entry = (name.clone(), (copy_params(params), ret.duplicate(), copy_body(body), *start, *end));
                self.define_function(entry);
                Ok(Value::Null)
            },
            Stmt::Return(x, _, _) => match x {
                None => Err(EvalError::Return(Value::Null)),
                Some(e) => self.exec_return(e, f),
            },
        }
    }

    fn exec_if(&mut self, c: &Expr, t: &Vec<Stmt>, e: &Vec<Stmt>, has_else: bool, f: u64) -> (res: Result<Value, EvalError>)
        ensures
            (final(self).state(), flow_of(res)) == sem_if(
                f as nat,
                old(self).src(),
                old(self).state(),
                c.sview(),
                stmts_view(t@),
                stmts_view(e@),
                has_else,
            ),
            final(self).src() == old(self).src(),
        decreases f, 2nat,
    {
        let v = match self.eval_expr_within(c, f) {
            Ok(v) => v,
            Err(err) => {
                return Err(err);
            },
        };
        let truth = v.is_truthy();
        if truth || has_else {
            let r = if truth {
                self.run_stmts(t.as_slice(), f)
            } else {
                self.run_stmts(e.as_slice(), f)
            };
            match r {
                Ok(_) => Ok(Value::Null),
                Err(err) => Err(err),
            }
        } else {
            Ok(Value::Null)
        }
    }

    fn exec_block(&mut self, b: &Vec<Stmt>, f: u64) -> (res: Result<Value, EvalError>)
        ensures
            (final(self).state(), flow_of(res)) == sem_block(f as nat, old(self).src(), old(self).state(), stmts_view(b@)),
            final(self).src() == old(self).src(),
        decreases f, 2nat,
    {
        let saved = copy_funcs(&self.functions);
        self.environment.push_scope();
        let r = self.run_stmts(b.as_slice(), f);
        self.environment.pop_scope();
        self.functions = saved;
        r
    }

    fn exec_print(&mut self, e: &Expr, f: u64) -> (res: Result<Value, EvalError>)
        ensures
            (final(self).state(), flow_of(res)) == sem_print(f as nat, old(self).src(), old(self).state(), e.sview()),
            final(self).src() == old(self).src(),
        decreases f, 2nat,
    {
        match self.eval_expr_within(e, f) {
            Ok(v) => {
                let ghost before = self.output@;
                v.write_to(&mut self.output);
                push_char(&mut self.output, '\n');
                proof {
                    reveal_strlit("\n");
                    assert(self.output@ =~= before + show(v.val()) + "\n"@);
                }
                Ok(Value::Null)
            },
            Err(err) => Err(err),
        }
    }

    fn exec_return(&mut self, e: &Expr, f: u64) -> (res: Result<Value, EvalError>)
        ensures
            (final(self).state(), flow_of(res)) == sem_return(f as nat, old(self).src(), old(self).state(), e.sview()),
            final(self).src() == old(self).src(),
        decreases f, 2nat,
    {
        match self.eval_expr_within(e, f) {
            Ok(v) => Err(EvalError::Return(v)),
            Err(err) => Err(err),
        }
    }

    fn define_function(&mut self, entry: (String, FuncEntry))
        ensures
            final(self).state() == (State {
                funcs: frame_set(old(self).state().funcs, entry.0@, func_view(entry).1),
                ..old(self).state()
            }),
            final(self).src() == old(self).src(),
    {
        let ghost fv = func_view(entry);
        let ghost old_f = self.functions@;
        proof {
            lemma_frame_index(funcs_view(old_f), entry.0@);
        }
        match find_function(&self.functions, entry.0.as_str()) {
            Some(i) => {
                self.functions.set(i, entry);
                proof {
                    assert(funcs_view(self.functions@) =~= funcs_view(old_f).update(i as int, fv));
                }
            },
            None => {
                self.functions.push(entry);
                proof {
                    assert(funcs_view(self.functions@) =~= funcs_view(old_f).push(fv));
                }
            },
        }
    }

    fn exec_var_decl(&mut self, names: &Vec<String>, ty: &Type) -> (r: Result<Value, EvalError>)
        ensures
            (final(self).state(), flow_of(r)) == sem_var_decl(old(self).state(), crate::ast::names_view(names@), *ty),
            final(self).src() == old(self).src(),
    {
        match default_for(ty) {
            None => fail_lit("不支持浮点数"),
            Some(d) => {
                let ghost ns = crate::ast::names_view(names@);
                let ghost dv = d.val();
                let ghost ds = Seq::new(ns.len(), |i: int| dv);
                proof {
                    assert(ns.skip(0) =~= ns);
                    assert(ds.skip(0) =~= ds);
                }
                let mut i: usize = 0;
                while i < names.len()
                    invariant
                        i <= names@.len(),
                        ns == crate::ast::names_view(names@),
                        ns.len() == names@.len(),
                        ds == Seq::new(ns.len(), |i: int| dv),
                        default_value(*ty) == Some(dv),
                        self.src() == old(self).src(),
                        self.functions@ == old(self).functions@,
                        self.output@ == old(self).output@,
                        define_all(old(self).state().env, ns, ds) == define_all(
                            self.environment@,
                            ns.skip(i as int),
                            ds.skip(i as int),
                        ),
                    decreases names@.len() - i,
                {
                    proof {
                        assert(ns.skip(i as int)[0] == names@[i as int]@);
                        assert(ds.skip(i as int)[0] == dv);
                        assert(ns.skip(i as int).drop_first() =~= ns.skip(i + 1));
                        assert(ds.skip(i as int).drop_first() =~= ds.skip(i + 1));
                    }
                    match default_for(ty) {
                        Some(x) => {
                            self.environment.define(names[i].as_str(), x);
                        },
                        None => {},
                    }
                    i = i + 1;
                }
                proof {
                    assert(ns.skip(i as int).len() == 0);
                }
                Ok(Value::Null)
            },
        }
    }

    fn exec_assign(&mut self, lhs: &Expr, rhs: &Expr, f: u64) -> (r: Result<Value, EvalError>)
        ensures
            (final(self).state(), flow_of(r)) == sem_assign(f as nat, old(self).src(), old(self).state(), lhs.sview(), rhs.sview()),
            final(self).src() == old(self).src(),
        decreases f, 3nat,
    {
        let value = match self.eval_expr_within(rhs, f) {
            Ok(v) => v,
            Err(e) => {
                return Err(e);
            },
        };
        match lhs {
            Expr::Id(name, _, _) => {
                let keep = value.deep_copy();
                self.assign_var(name, value, keep)
            },
            Expr::Index(ae, ie, _, _) => self.exec_assign_index(ae, ie, value, f),
            _ => fail_lit("赋值左侧必须是变量或索引"),
        }
    }

    fn assign_var(&mut self, name: &String, value: Value, result: Value) -> (r: Result<Value, EvalError>)
        ensures
            (final(self).state(), flow_of(r)) == assign_var(old(self).state(), name@, value.val(), result.val()),
            final(self).src() == old(self).src(),
    {
        match self.environment.assign(name.as_str(), value) {
            Ok(()) => Ok(result),
            Err(m) => fail(m),
        }
    }

    fn exec_assign_index(&mut self, ae: &Expr, ie: &Expr, value: Value, f: u64) -> (r: Result<Value, EvalError>)
        ensures
            (final(self).state(), flow_of(r)) == sem_assign_index(f as nat, old(self).src(), old(self).state(), ae.sview(), ie.sview(), value.val()),
            final(self).src() == old(self).src(),
        decreases f, 2nat,
    {
        let av = match self.eval_expr_within(ae, f) {
            Ok(v) => v,
            Err(e) => {
                return Err(e);
            },
        };
        let iv = match self.eval_expr_within(ie, f) {
            Ok(v) => v,
            Err(e) => {
                return Err(e);
            },
        };
        match iv.as_int() {
            None => fail_lit("索引必须是整数"),
            Some(k) => match av {
                Value::Array(items) => {
                    proof {
                        lemma_vals(items@);
                    }
                    if k < 0 || k as u64 >= items.len() as u64 {
                        bounds_error(items.len(), k)
                    } else {
                        let mut items = items;
                        let ghost before = items@;
                        items.set(k as usize, value);
                        proof {
                            lemma_vals_update(before, k as int, value);
                        }
                        match ae {
                            Expr::Id(var, _, _) => self.assign_var(var, Value::Array(items), Value::Null),
                            _ => fail_lit("索引赋值暂不支持复杂左值"),
                        }
                    }
                },
                _ => fail_lit("索引赋值需要数组"),
            },
        }
    }

    fn run_while(&mut self, c: &Expr, body: &[Stmt], fuel: u64) -> (r: Result<Value, EvalError>)
        ensures
            (final(self).state(), flow_of(r)) == sem_while(fuel as nat, old(self).src(), old(self).state(), c.sview(), stmts_view(body@)),
            final(self).src() == old(self).src(),
        decreases fuel, 1nat,
    {
        let mut left = fuel;
        let ghost st0 = self.state();
        let ghost src = self.src();
        loop
            invariant
                left <= fuel,
                self.src() == src,
                src == old(self).src(),
                st0 == old(self).state(),
                sem_while(fuel as nat, src, st0, c.sview(), stmts_view(body@))
                    == sem_while(left as nat, src, self.state(), c.sview(), stmts_view(body@)),
            decreases left,
        {
            if left == 0 {
                return fail_lit("执行步数超出上限");
            }
            let f = left - 1;
            let v = match self.eval_expr_within(c, f) {
                Ok(v) => v,
                Err(e) => {
                    return Err(e);
                },
            };
            if !v.is_truthy() {
                return Ok(Value::Null);
            }
            match self.run_stmts(body, f) {
                Ok(_) => {},
                Err(e) => {
                    return Err(e);
                },
            }
            left = f;
        }
    }

    fn exec_for(&mut self, name: &String, start: &Expr, end: &Expr, body: &Vec<Stmt>, f: u64) -> (r: Result<Value, EvalError>)
        ensures
            (final(self).state(), flow_of(r)) == sem_for_stmt(
                f as nat,
                old(self).src(),
                old(self).state(),
                name@,
                start.sview(),
                end.sview(),
                stmts_view(body@),
            ),
            final(self).src() == old(self).src(),
        decreases f, 2nat,
    {
        let sv = match self.eval_expr_within(start, f) {
            Ok(v) => v,
            Err(e) => {
                return Err(e);
            },
        };
        match sv.as_int() {
            None => fail_lit("for 循环起始值必须是整数"),
            Some(n) => {
                let saved = copy_funcs(&self.functions);
                self.environment.push_scope();
                self.environment.define(name.as_str(), Value::Int(n));
                let cond = Expr::Op(
                    Opcode::LessOrEqual,
                    Box::new(Expr::Id(name.clone(), 0, 0)),
                    Box::new(end.deep_copy()),
                );
                let target = Expr::Id(name.clone(), 0, 0);
                let current = Expr::Id(name.clone(), 0, 0);
                let one = Expr::Num(1, 0, 0);
                proof {
                    assert(target.sview() == SExpr::Id(name@, 0));
                    assert(current.sview() == SExpr::Id(name@, 0));
                    assert(one.sview() == SExpr::Num(1));
                }
                let sum = Expr::Op(Opcode::Add, Box::new(current), Box::new(one));
                proof {
                    assert(sum.sview() == SExpr::Op(Opcode::Add, Box::new(SExpr::Id(name@, 0)), Box::new(SExpr::Num(1))));
                }
                let step = Stmt::Assign(Box::new(target), Box::new(sum));
                proof {
                    assert(step.sview() == for_step(name@));
                }
                let r = self.run_for(&cond, &step, body.as_slice(), f, Ghost(name@), Ghost(end.sview()));
                self.environment.pop_scope();
                self.functions = saved;
                r
            },
        }
    }

    fn run_for(
        &mut self,
        cond: &Expr,
        step: &Stmt,
        body: &[Stmt],
        fuel: u64,
        Ghost(name): Ghost<Seq<char>>,
        Ghost(end): Ghost<SExpr>,
    ) -> (r: Result<Value, EvalError>)
        requires
            cond.sview() == for_condition(name, end),
            step.sview() == for_step(name),
        ensures
            (final(self).state(), flow_of(r)) == sem_for(fuel as nat, old(self).src(), old(self).state(), name, end, stmts_view(body@)),
            final(self).src() == old(self).src(),
        decreases fuel, 1nat,
    {
        let mut left = fuel;
        let ghost st0 = self.state();
        let ghost src = self.src();
        loop
            invariant
                left <= fuel,
                cond.sview() == for_condition(name, end),
                step.sview() == for_step(name),
                self.src() == src,
                src == old(self).src(),
                st0 == old(self).state(),
                sem_for(fuel as nat, src, st0, name, end, stmts_view(body@))
                    == sem_for(left as nat, src, self.state(), name, end, stmts_view(body@)),
            decreases left,
        {
            if left == 0 {
                return fail_lit("执行步数超出上限");
            }
            let f = left - 1;
            let v = match self.eval_expr_within(cond, f) {
                Ok(v) => v,
                Err(e) => {
                    return Err(e);
                },
            };
            if !v.is_truthy() {
                return Ok(Value::Null);
            }
            match self.run_stmts(body, f) {
                Ok(_) => {},
                Err(e) => {
                    return Err(e);
                },
            }
            match self.execute_within(step, f) {
                Ok(_) => {},
                Err(e) => {
                    return Err(e);
                },
            }
            left = f;
        }
    }
}

/// The element of an evaluated array at an evaluated index.
pub fn index_value(av: &Value, iv: &Value) -> (res: Result<Value, EvalError>)
    ensures
        flow_of(res) == index_of(av.val(), iv.val()),
{
    match av {
        Value::Array(items) => {
            proof {
                lemma_vals(items@);
            }
            match iv.as_int() {
                Some(k) => {
                    if k < 0 || k as u64 >= items.len() as u64 {
                        bounds_error(items.len(), k)
                    } else {
                        Ok(items[k as usize].deep_copy())
                    }
                },
                None => fail_lit("索引必须是整数"),
            }
        },
        _ => fail_lit("索引操作需要数组"),
    }
}

} // verus!
