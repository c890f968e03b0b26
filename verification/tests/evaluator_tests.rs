use comix::ast::{Expr, Opcode, Stmt, Type};
use comix::environment::Environment;
use comix::evaluator::{EvalError, Evaluator};
use comix::value::Value;

fn id(name: &str) -> Box<Expr> {
    Box::new(Expr::Id(name.to_string(), 0, 0))
}

fn id_at(name: &str, start: usize) -> Box<Expr> {
    Box::new(Expr::Id(name.to_string(), start, start + name.len()))
}

fn num(n: u32) -> Box<Expr> {
    Box::new(Expr::Num(n, 0, 0))
}

fn text(s: &str) -> Box<Expr> {
    Box::new(Expr::StringLit(s.to_string(), 0, 0))
}

fn boolean(b: bool) -> Box<Expr> {
    Box::new(Expr::BoolLit(b, 0, 0))
}

fn op(o: Opcode, l: Box<Expr>, r: Box<Expr>) -> Box<Expr> {
    Box::new(Expr::Op(o, l, r))
}

fn call(name: &str, args: Vec<Expr>) -> Box<Expr> {
    Box::new(Expr::Call(name.to_string(), args, 0, 0))
}

fn decl(names: &[&str], ty: Type) -> Stmt {
    Stmt::VarDecl(names.iter().map(|n| n.to_string()).collect(), ty)
}

fn assign(name: &str, value: Box<Expr>) -> Stmt {
    Stmt::Assign(id(name), value)
}

fn print(e: Box<Expr>) -> Stmt {
    Stmt::Print(e)
}

fn ret(e: Box<Expr>) -> Stmt {
    Stmt::Return(Some(e), 0, 0)
}

fn func(name: &str, params: &[&str], body: Vec<Stmt>) -> Stmt {
    Stmt::FuncDef(
        name.to_string(),
        params.iter().map(|p| (p.to_string(), Type::Int)).collect(),
        Type::Int,
        body,
        0,
        0,
    )
}

fn evaluator() -> Evaluator {
    Evaluator::new(Environment::new(), String::new())
}

fn runtime_message(r: Result<Value, EvalError>) -> String {
    match r {
        Err(EvalError::Runtime(m)) => m,
        other => panic!("expected a runtime error, got {:?}", other),
    }
}

#[test]
fn assignment_gives_the_assigned_value() {
    let mut ev = evaluator();
    assert_eq!(ev.evaluate(&[decl(&["x"], Type::Int)]).unwrap(), Value::Null);
    assert_eq!(ev.evaluate(&[assign("x", num(42))]).unwrap(), Value::Int(42));
    assert_eq!(ev.evaluate(&[Stmt::Expr(op(Opcode::Mul, id("x"), num(2)))]).unwrap(), Value::Int(84));
}

#[test]
fn declarations_start_with_the_default_of_their_type() {
    let mut ev = evaluator();
    let prog = vec![
        decl(&["a", "b"], Type::Int),
        decl(&["flag"], Type::Bool),
        decl(&["name"], Type::String),
        decl(&["xs"], Type::Array(Box::new(Type::Int))),
        print(id("a")),
        print(id("b")),
        print(id("flag")),
        print(op(Opcode::Add, text("["), op(Opcode::Add, id("name"), text("]")))),
        print(id("xs")),
    ];
    ev.evaluate(&prog).unwrap();
    assert_eq!(ev.take_output(), "0\n0\nfalse\n[]\n[]\n");
}

#[test]
fn float_declarations_are_refused() {
    let mut ev = evaluator();
    assert_eq!(runtime_message(ev.evaluate(&[decl(&["pi"], Type::Float)])), "不支持浮点数");
}

#[test]
fn string_concatenation() {
    let mut ev = evaluator();
    let prog = vec![
        decl(&["s"], Type::String),
        assign("s", op(Opcode::Add, text("Hello "), text("World"))),
    ];
    assert_eq!(ev.evaluate(&prog).unwrap(), Value::String("Hello World".to_string()));
    let mixed = vec![Stmt::Expr(op(Opcode::Add, text("n="), num(5)))];
    assert_eq!(ev.evaluate(&mixed).unwrap(), Value::String("n=5".to_string()));
    let mixed2 = vec![Stmt::Expr(op(Opcode::Add, num(5), text("!")))];
    assert_eq!(ev.evaluate(&mixed2).unwrap(), Value::String("5!".to_string()));
}

#[test]
fn arithmetic_and_comparisons() {
    let mut ev = evaluator();
    let e = op(Opcode::Add, num(10), op(Opcode::Mul, num(3), num(2)));
    assert_eq!(ev.evaluate(&[Stmt::Expr(e)]).unwrap(), Value::Int(16));
    let e = op(Opcode::Div, op(Opcode::Sub, num(10), num(4)), num(2));
    assert_eq!(ev.evaluate(&[Stmt::Expr(e)]).unwrap(), Value::Int(3));
    let e = Box::new(Expr::Neg(num(5), 0, 0));
    assert_eq!(ev.evaluate(&[Stmt::Expr(e)]).unwrap(), Value::Int(-5));
    // truncating division
    let e = op(Opcode::Div, Box::new(Expr::Neg(num(7), 0, 0)), num(2));
    assert_eq!(ev.evaluate(&[Stmt::Expr(e)]).unwrap(), Value::Int(-3));
    let e = op(Opcode::Equal, text("hello"), text("hello"));
    assert_eq!(ev.evaluate(&[Stmt::Expr(e)]).unwrap(), Value::Bool(true));
    let e = op(Opcode::NotEqual, num(5), num(3));
    assert_eq!(ev.evaluate(&[Stmt::Expr(e)]).unwrap(), Value::Bool(true));
    let e = op(Opcode::LessOrEqual, num(5), num(3));
    assert_eq!(ev.evaluate(&[Stmt::Expr(e)]).unwrap(), Value::Bool(false));
    let e = op(Opcode::And, op(Opcode::GreaterThan, num(10), num(5)), Box::new(Expr::Not(boolean(false))));
    assert_eq!(ev.evaluate(&[Stmt::Expr(e)]).unwrap(), Value::Bool(true));
}

#[test]
fn and_or_short_circuit() {
    let mut ev = evaluator();
    // the right operand would fail if it were evaluated
    let e = op(Opcode::And, boolean(false), id("missing"));
    assert_eq!(ev.evaluate(&[Stmt::Expr(e)]).unwrap(), Value::Bool(false));
    let e = op(Opcode::Or, num(1), id("missing"));
    assert_eq!(ev.evaluate(&[Stmt::Expr(e)]).unwrap(), Value::Bool(true));
    let e = op(Opcode::Or, num(0), num(7));
    assert_eq!(ev.evaluate(&[Stmt::Expr(e)]).unwrap(), Value::Bool(true));
}

#[test]
fn runtime_errors() {
    let mut ev = evaluator();
    let cases: Vec<(Box<Expr>, &str)> = vec![
        (op(Opcode::Div, num(1), num(0)), "除数不能为零"),
        (op(Opcode::Sub, text("a"), num(1)), "减法需要数字操作数"),
        (op(Opcode::Mul, boolean(true), num(1)), "乘法需要数字操作数"),
        (op(Opcode::Div, boolean(true), num(1)), "除法需要数字操作数"),
        (op(Opcode::Add, boolean(true), num(1)), "加法需要数字或字符串操作数"),
        (op(Opcode::Add, text("a"), boolean(true)), "加法：右操作数无法转换为字符串"),
        (op(Opcode::Add, boolean(true), text("a")), "加法：左操作数无法转换为字符串"),
        (op(Opcode::LessThan, text("a"), num(1)), "比较需要数字操作数"),
        (op(Opcode::Equal, text("a"), num(1)), "相等比较需要相同类型的操作数"),
        (op(Opcode::NotEqual, boolean(true), num(1)), "不等比较需要相同类型的操作数"),
        (Box::new(Expr::Not(num(1))), "逻辑非需要布尔操作数"),
        (Box::new(Expr::Neg(text("a"), 0, 0)), "负数只能应用于数字"),
        (call("len", vec![]), "len 需要 1 个参数"),
        (call("len", vec![Expr::Num(3, 0, 0)]), "len 只支持数组或字符串"),
        (call("nothing", vec![]), "函数 'nothing' 未定义"),
        (Box::new(Expr::Index(num(1), num(0), 0, 0)), "索引操作需要数组"),
        (
            Box::new(Expr::Index(Box::new(Expr::ArrayLit(vec![Expr::Num(1, 0, 0)], 0, 0)), boolean(true), 0, 0)),
            "索引必须是整数",
        ),
        (
            Box::new(Expr::Index(Box::new(Expr::ArrayLit(vec![Expr::Num(1, 0, 0)], 0, 0)), num(1), 0, 0)),
            "索引越界: 长度 1，索引 1",
        ),
    ];
    for (e, msg) in cases {
        assert_eq!(runtime_message(ev.evaluate(&[Stmt::Expr(e)])), msg);
    }
}

#[test]
fn integer_overflow_is_an_error() {
    let mut ev = evaluator();
    let prog = vec![
        decl(&["x"], Type::Int),
        assign("x", num(4000000000)),
        assign("x", op(Opcode::Mul, id("x"), id("x"))),
        assign("x", op(Opcode::Mul, id("x"), id("x"))),
    ];
    assert_eq!(runtime_message(ev.evaluate(&prog)), "整数溢出");
}

#[test]
fn undefined_variable_reports_line_and_column() {
    let source = "int x;\nx := y + 1;";
    let mut ev = Evaluator::new(Environment::new(), source.to_string());
    let prog = vec![decl(&["x"], Type::Int), assign("x", op(Opcode::Add, id_at("y", 12), num(1)))];
    assert_eq!(runtime_message(ev.evaluate(&prog)), "2:6 变量 'y' 未定义");
    // assigning an undefined variable reports no position
    assert_eq!(runtime_message(ev.evaluate(&[assign("z", num(1))])), "变量 'z' 未定义");
}

#[test]
fn functions_with_return_and_recursion() {
    let mut ev = evaluator();
    let add = func("add", &["a", "b"], vec![ret(op(Opcode::Add, id("a"), id("b")))]);
    let fib = func(
        "fib",
        &["n"],
        vec![Stmt::IfElse(
            op(Opcode::LessOrEqual, id("n"), num(1)),
            vec![ret(id("n"))],
            vec![ret(op(
                Opcode::Add,
                call("fib", vec![*op(Opcode::Sub, id("n"), num(1))]),
                call("fib", vec![*op(Opcode::Sub, id("n"), num(2))]),
            ))],
        )],
    );
    let prog = vec![add, fib, print(call("add", vec![Expr::Num(3, 0, 0), Expr::Num(5, 0, 0)])), print(call("fib", vec![Expr::Num(6, 0, 0)]))];
    ev.evaluate(&prog).unwrap();
    assert_eq!(ev.take_output(), "8\n8\n");
}

#[test]
fn factorial_script() {
    let mut ev = evaluator();
    let factorial = func(
        "factorial",
        &["n"],
        vec![Stmt::IfElse(
            op(Opcode::LessOrEqual, id("n"), num(1)),
            vec![ret(num(1))],
            vec![ret(op(Opcode::Mul, id("n"), call("factorial", vec![*op(Opcode::Sub, id("n"), num(1))])))],
        )],
    );
    let prog = vec![
        factorial,
        decl(&["result"], Type::Int),
        assign("result", call("factorial", vec![Expr::Num(5, 0, 0)])),
        print(id("result")),
    ];
    assert_eq!(ev.evaluate(&prog).unwrap(), Value::Null);
    assert_eq!(ev.take_output(), "120\n");
}

#[test]
fn function_without_return_gives_null_after_its_body() {
    let mut ev = evaluator();
    let greet = func("greet", &["name"], vec![print(op(Opcode::Add, text("Hello, "), id("name")))]);
    let prog = vec![greet, Stmt::Expr(call("greet", vec![Expr::StringLit("Comix".to_string(), 0, 0)]))];
    assert_eq!(ev.evaluate(&prog).unwrap(), Value::Null);
    assert_eq!(ev.take_output(), "Hello, Comix\n");
    let one = func("one", &[], vec![Stmt::Expr(num(1))]);
    assert_eq!(ev.evaluate(&[one, Stmt::Expr(call("one", vec![]))]).unwrap(), Value::Null);
}

#[test]
fn call_with_wrong_argument_count() {
    let mut ev = evaluator();
    let add = func("add", &["a", "b"], vec![ret(op(Opcode::Add, id("a"), id("b")))]);
    ev.evaluate(&[add]).unwrap();
    let r = ev.evaluate(&[Stmt::Expr(call("add", vec![Expr::Num(1, 0, 0)]))]);
    assert_eq!(runtime_message(r), "函数 'add' 需要 2 个参数，提供了 1 个");
}

#[test]
fn block_scope() {
    let mut ev = evaluator();
    let prog = vec![
        decl(&["outer"], Type::Int),
        assign("outer", num(10)),
        Stmt::Block(vec![
            decl(&["inner"], Type::Int),
            assign("inner", num(20)),
            assign("outer", op(Opcode::Add, id("outer"), id("inner"))),
        ]),
        print(id("outer")),
    ];
    ev.evaluate(&prog).unwrap();
    assert_eq!(ev.take_output(), "30\n");
    let r = ev.evaluate(&[print(id("inner"))]);
    assert_eq!(runtime_message(r), "1:1 变量 'inner' 未定义");
}

#[test]
fn while_loop() {
    let mut ev = evaluator();
    let prog = vec![
        decl(&["i"], Type::Int),
        assign("i", num(0)),
        Stmt::While(
            op(Opcode::LessThan, id("i"), num(5)),
            vec![print(id("i")), assign("i", op(Opcode::Add, id("i"), num(1)))],
        ),
    ];
    ev.evaluate(&prog).unwrap();
    assert_eq!(ev.take_output(), "0\n1\n2\n3\n4\n");
}

#[test]
fn for_loop_includes_its_upper_bound() {
    let mut ev = evaluator();
    let prog = vec![Stmt::For("j".to_string(), num(1), num(10), vec![print(id("j"))])];
    ev.evaluate(&prog).unwrap();
    assert_eq!(ev.take_output(), "1\n2\n3\n4\n5\n6\n7\n8\n9\n10\n");
    // the loop variable does not outlive the loop
    assert_eq!(runtime_message(ev.evaluate(&[print(id("j"))])), "1:1 变量 'j' 未定义");
    let bad = vec![Stmt::For("k".to_string(), text("a"), num(3), vec![])];
    assert_eq!(runtime_message(ev.evaluate(&bad)), "for 循环起始值必须是整数");
}

#[test]
fn if_without_else_and_return_at_top_level() {
    let mut ev = evaluator();
    let prog = vec![Stmt::If(op(Opcode::GreaterThan, num(1), num(0)), vec![print(text("yes"))])];
    assert_eq!(ev.evaluate(&prog).unwrap(), Value::Null);
    assert_eq!(ev.take_output(), "yes\n");
    match ev.evaluate(&[ret(num(3))]) {
        Err(EvalError::Return(v)) => assert_eq!(v, Value::Int(3)),
        other => panic!("unexpected {:?}", other),
    }
}

#[test]
fn arrays_len_and_index_assignment() {
    let mut ev = evaluator();
    let prog = vec![
        decl(&["xs"], Type::Array(Box::new(Type::Int))),
        assign("xs", Box::new(Expr::ArrayLit(vec![Expr::Num(1, 0, 0), Expr::Num(2, 0, 0), Expr::Num(3, 0, 0)], 0, 0))),
        Stmt::Assign(Box::new(Expr::Index(id("xs"), num(1), 0, 0)), num(20)),
        print(id("xs")),
        print(call("len", vec![*id("xs")])),
        print(call("len", vec![Expr::StringLit("héllo".to_string(), 0, 0)])),
        print(Box::new(Expr::Index(id("xs"), num(2), 0, 0))),
    ];
    ev.evaluate(&prog).unwrap();
    assert_eq!(ev.take_output(), "[1, 20, 3]\n3\n6\n3\n");
    let bad = vec![Stmt::Assign(Box::new(Expr::Index(id("xs"), num(3), 0, 0)), num(0))];
    assert_eq!(runtime_message(ev.evaluate(&bad)), "索引越界: 长度 3，索引 3");
    let bad = vec![Stmt::Assign(Box::new(Expr::Index(id("xs"), text("0"), 0, 0)), num(0))];
    assert_eq!(runtime_message(ev.evaluate(&bad)), "索引必须是整数");
    let bad = vec![Stmt::Assign(Box::new(Expr::Index(num(1), num(0), 0, 0)), num(0))];
    assert_eq!(runtime_message(ev.evaluate(&bad)), "索引赋值需要数组");
    let arr = Box::new(Expr::ArrayLit(vec![Expr::Num(1, 0, 0)], 0, 0));
    let bad = vec![Stmt::Assign(Box::new(Expr::Index(arr, num(0), 0, 0)), num(0))];
    assert_eq!(runtime_message(ev.evaluate(&bad)), "索引赋值暂不支持复杂左值");
    let bad = vec![Stmt::Assign(num(1), num(0))];
    assert_eq!(runtime_message(ev.evaluate(&bad)), "赋值左侧必须是变量或索引");
}

#[test]
fn functions_defined_in_a_block_stay_in_it() {
    let mut ev = evaluator();
    let prog = vec![Stmt::Block(vec![func("f", &[], vec![ret(num(1))]), print(call("f", vec![]))])];
    ev.evaluate(&prog).unwrap();
    assert_eq!(ev.take_output(), "1\n");
    assert_eq!(runtime_message(ev.evaluate(&[Stmt::Expr(call("f", vec![]))])), "函数 'f' 未定义");
}

#[test]
fn a_small_step_budget_stops_the_run() {
    let mut ev = evaluator();
    let forever = vec![Stmt::While(boolean(true), vec![])];
    assert_eq!(runtime_message(ev.run_stmts(&forever, 50)), "执行步数超出上限");
}

#[test]
fn dump_env_shows_the_variables() {
    let mut ev = evaluator();
    ev.evaluate(&[decl(&["x"], Type::Int), assign("x", num(7))]).unwrap();
    let mut out = String::new();
    ev.dump_env_to_string(&mut out);
    assert_eq!(out, "Environment (1 variables):\n  x = 7\n");
}

#[test]
fn error_display() {
    assert_eq!(EvalError::Runtime("boom".to_string()).to_display_string(), "boom");
    assert_eq!(EvalError::Return(Value::Int(4)).to_display_string(), "4");
}

#[test]
fn function_without_return_gives_null() {
    let mut ev = evaluator();
    ev.execute(&Stmt::FuncDef("f".into(), vec![], Type::Int, vec![Stmt::Expr(num(5))], 0, 0)).unwrap();
    let e = Expr::Call("f".into(), vec![], 0, 0);
    assert!(matches!(ev.eval_expr(&e), Ok(Value::Null)));
}
