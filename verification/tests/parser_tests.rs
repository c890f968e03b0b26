use comix::ast::{Expr, Opcode, Stmt, Type};
use comix::environment::Environment;
use comix::evaluator::{EvalError, Evaluator};
use comix::lexer::{tokenize, LexError, TokKind};
use comix::reader::parse_input;
use comix::value::Value;

/// Parses and runs a program in a fresh interpreter; gives the printed
/// output and the result.
fn run(src: &str) -> (String, Result<Value, EvalError>) {
    let stmts = parse_input(src).expect("the program parses");
    let mut ev = Evaluator::new(Environment::new(), src.to_string());
    let r = ev.evaluate(&stmts);
    (ev.take_output(), r)
}

fn parse_error(src: &str) -> String {
    match parse_input(src) {
        Err(m) => m,
        Ok(s) => panic!("expected a parse error, got {:?}", s),
    }
}

#[test]
fn tokens_of_a_declaration() {
    let toks = tokenize("int a, b; // two\n").unwrap();
    let kinds: Vec<TokKind> = toks.iter().map(|t| t.kind).collect();
    assert_eq!(kinds, vec![TokKind::KwInt, TokKind::Ident, TokKind::Comma, TokKind::Ident, TokKind::Semi]);
    assert_eq!(toks[1].text, "a");
    assert_eq!((toks[3].start, toks[3].end), (7, 8));
}

#[test]
fn tokens_longest_symbol_first() {
    let toks = tokenize("x:=1<=2->3!=4").unwrap();
    let kinds: Vec<TokKind> = toks.iter().map(|t| t.kind).collect();
    assert_eq!(
        kinds,
        vec![
            TokKind::Ident,
            TokKind::ColonEq,
            TokKind::Num,
            TokKind::LessEq,
            TokKind::Num,
            TokKind::Arrow,
            TokKind::Num,
            TokKind::NotEq,
            TokKind::Num
        ]
    );
    assert_eq!(toks[2].value, 1);
}

#[test]
fn tokens_of_literals() {
    let toks = tokenize("\"你好 x\" 3.25 42").unwrap();
    assert_eq!(toks[0].kind, TokKind::Str);
    assert_eq!(toks[0].content, "你好 x");
    assert_eq!(toks[0].text, "\"你好 x\"");
    assert_eq!(toks[1].kind, TokKind::Float);
    assert_eq!(toks[1].text, "3.25");
    assert_eq!(toks[2].kind, TokKind::Num);
    assert_eq!(toks[2].value, 42);
}

#[test]
fn lexical_errors() {
    assert_eq!(tokenize("x # y").unwrap_err(), LexError::InvalidChar(2));
    assert_eq!(tokenize("\"open").unwrap_err(), LexError::InvalidChar(0));
    assert_eq!(tokenize("99999999999").unwrap_err(), LexError::NumberTooLarge(0, 11));
    assert_eq!(tokenize("4294967295").unwrap()[0].value, 4294967295);
}

#[test]
fn operators_bind_as_usual() {
    let stmts = parse_input("1 + 2 * 3 - 4;").unwrap();
    match &stmts[0] {
        Stmt::Expr(e) => match e.as_ref() {
            Expr::Op(Opcode::Sub, l, r) => {
                assert!(matches!(r.as_ref(), Expr::Num(4, _, _)));
                match l.as_ref() {
                    Expr::Op(Opcode::Add, a, m) => {
                        assert!(matches!(a.as_ref(), Expr::Num(1, _, _)));
                        assert!(matches!(m.as_ref(), Expr::Op(Opcode::Mul, _, _)));
                    },
                    other => panic!("unexpected {:?}", other),
                }
            },
            other => panic!("unexpected {:?}", other),
        },
        other => panic!("unexpected {:?}", other),
    }
}

#[test]
fn declaration_and_function_shapes() {
    let stmts = parse_input("int[] a, b; func f(int x, string s) -> bool { return true; };").unwrap();
    match &stmts[0] {
        Stmt::VarDecl(names, ty) => {
            assert_eq!(names, &vec!["a".to_string(), "b".to_string()]);
            assert_eq!(ty, &Type::Array(Box::new(Type::Int)));
        },
        other => panic!("unexpected {:?}", other),
    }
    match &stmts[1] {
        Stmt::FuncDef(name, params, ret, body, _, _) => {
            assert_eq!(name, "f");
            assert_eq!(params.len(), 2);
            assert_eq!(params[1].0, "s");
            assert_eq!(params[1].1, Type::String);
            assert_eq!(ret, &Type::Bool);
            assert_eq!(body.len(), 1);
        },
        other => panic!("unexpected {:?}", other),
    }
}

#[test]
fn variable_positions_are_byte_offsets() {
    let stmts = parse_input("int x;\nx := y + 1;").unwrap();
    match &stmts[1] {
        Stmt::Assign(_, rhs) => match rhs.as_ref() {
            Expr::Op(_, l, _) => assert!(matches!(l.as_ref(), Expr::Id(n, 12, 13) if n == "y")),
            other => panic!("unexpected {:?}", other),
        },
        other => panic!("unexpected {:?}", other),
    }
}

#[test]
fn readme_repl_session() {
    let (out, r) = run("int x; x := 42;");
    assert_eq!(out, "");
    assert_eq!(r.unwrap(), Value::Int(42));
    let (_, r) = run("string s; s := \"Hello \" + \"World\";");
    assert_eq!(r.unwrap().to_display_string(), "Hello World");
}

#[test]
fn readme_factorial_script() {
    let src = "// 计算阶乘\nfunc factorial(int n) -> int {\n    if n <= 1 then {\n        return 1;\n    } else {\n        return n * factorial(n - 1);\n    };\n};\n\nint result;\nresult := factorial(5);\nprint result;   // 输出 120\n";
    let (out, r) = run(src);
    assert_eq!(out, "120\n");
    assert_eq!(r.unwrap(), Value::Null);
}

#[test]
fn readme_expressions() {
    let (_, r) = run("int a; a := 10 + 3 * 2;");
    assert_eq!(r.unwrap(), Value::Int(16));
    let (_, r) = run("int b; b := (10 - 4) / 2;");
    assert_eq!(r.unwrap(), Value::Int(3));
    let (_, r) = run("int c; c := -5;");
    assert_eq!(r.unwrap(), Value::Int(-5));
    let (out, _) = run("int a; bool flag; a := 10; if a > 5 and not flag then { print \"condition true\"; };");
    assert_eq!(out, "condition true\n");
    let (out, _) = run("if \"hello\" = \"hello\" then { print \"equal\"; }; if 5 != 3 then { print \"not equal\"; };");
    assert_eq!(out, "equal\nnot equal\n");
}

#[test]
fn readme_control_flow() {
    let (out, _) = run("int x; x := 0; if x > 0 then { print x; } else { print \"non-positive\"; };");
    assert_eq!(out, "non-positive\n");
    let (out, _) = run("int i; i := 0; while i < 5 do { print i; i := i + 1; };");
    assert_eq!(out, "0\n1\n2\n3\n4\n");
    let (out, _) = run("for j := 1 to 3 do { print j; };");
    assert_eq!(out, "1\n2\n3\n");
}

#[test]
fn readme_functions() {
    let (out, _) = run("func add(int a, int b) -> int { return a + b; }; print add(3, 5);");
    assert_eq!(out, "8\n");
    let (out, _) = run("func greet(string name) -> int { print \"Hello, \" + name; }; greet(\"Comix\");");
    assert_eq!(out, "Hello, Comix\n");
    let (out, _) = run(
        "func fib(int n) -> int { if n <= 1 then { return n; } else { return fib(n-1) + fib(n-2); }; }; print fib(6);",
    );
    assert_eq!(out, "8\n");
}

#[test]
fn readme_scope() {
    let src = "int outer;\nouter := 10;\n{\n    int inner;\n    inner := 20;\n    outer := outer + inner;\n};\nprint outer;\n";
    let (out, r) = run(src);
    assert_eq!(out, "30\n");
    assert!(r.is_ok());
    let (_, r) = run("{ int inner; inner := 20; }; print inner;");
    match r {
        Err(EvalError::Runtime(m)) => assert!(m.ends_with("变量 'inner' 未定义"), "{}", m),
        other => panic!("unexpected {:?}", other),
    }
}

#[test]
fn readme_error_position() {
    let src = "int x;\nx := y + 1;";
    let (_, r) = run(src);
    match r {
        Err(EvalError::Runtime(m)) => assert_eq!(m, "2:6 变量 'y' 未定义"),
        other => panic!("unexpected {:?}", other),
    }
}

#[test]
fn arrays_and_indexing() {
    let (out, _) = run("int[] a; a := [1, 2, 3]; a[1] := 20; print a[1]; print a;");
    assert_eq!(out, "20\n[1, 20, 3]\n");
}

#[test]
fn invalid_character_message() {
    assert_eq!(parse_error("int x;\nx := 1 # 2;"), "2:8 无效字符: '#'");
    assert_eq!(parse_error("x := 1 € 2;"), "1:8 无效字符: '€'");
}

#[test]
fn unterminated_string_message() {
    assert_eq!(parse_error("print \"abc;"), "1:7 无效字符: '\"'");
}

#[test]
fn number_too_large_message() {
    assert_eq!(parse_error("print 4294967296;"), "1:7 整数超出范围: '4294967296'");
}

#[test]
fn unexpected_token_message() {
    assert_eq!(parse_error("int x\nx := 1;"), "2:1 未识别的 token 'x', 期望: [\"\\\";\\\"\"]");
    assert_eq!(parse_error("if 1 { print 1; };"), "1:6 未识别的 token '{', 期望: [\"\\\"then\\\"\"]");
    assert_eq!(parse_error("f(1 2);"), "1:5 未识别的 token '2', 期望: [\"\\\",\\\"\", \"\\\")\\\"\"]");
}

#[test]
fn unexpected_end_message() {
    assert_eq!(parse_error("print 1"), "1:1 未预期的文件结束, 期望: [\"\\\";\\\"\"]");
    assert_eq!(parse_error("{ print 1;"), "1:1 未预期的文件结束, 期望: [\"\\\"}\\\"\"]");
}

#[test]
fn float_literal_message() {
    assert_eq!(parse_error("float pi;\npi := 3.14159;"), "2:7 不支持浮点数: '3.14159'");
}

#[test]
fn float_declaration_parses_and_fails_at_run_time() {
    let (_, r) = run("float pi;");
    match r {
        Err(EvalError::Runtime(m)) => assert_eq!(m, "不支持浮点数"),
        other => panic!("unexpected {:?}", other),
    }
}

#[test]
fn empty_program_and_comments() {
    assert_eq!(parse_input("").unwrap().len(), 0);
    assert_eq!(parse_input("// nothing here\n   \n").unwrap().len(), 0);
    assert_eq!(parse_input("return;").unwrap().len(), 1);
}

#[test]
fn and_or_skip_the_right_operand() {
    let (_, r) = run("false and nope;");
    assert_eq!(r.unwrap(), Value::Bool(false));
    let (_, r) = run("true or nope;");
    assert_eq!(r.unwrap(), Value::Bool(true));
    let (_, r) = run("1 and 2;");
    assert_eq!(r.unwrap(), Value::Bool(true));
}

#[test]
fn declaration_resets_to_the_initial_value() {
    let (out, _) = run("int x; x := 7; int x; print x; bool b; print b; string s; print s; int[] a; print a;");
    assert_eq!(out, "0\nfalse\n\n[]\n");
}

#[test]
fn assignment_gives_the_value_and_needs_a_definition() {
    let (_, r) = run("int x; { x := 3; };");
    assert_eq!(r.unwrap(), Value::Int(3));
    let (_, r) = run("y := 1;");
    match r {
        Err(EvalError::Runtime(m)) => assert_eq!(m, "变量 'y' 未定义"),
        other => panic!("unexpected {:?}", other),
    }
    let (_, r) = run("1 := 2;");
    match r {
        Err(EvalError::Runtime(m)) => assert_eq!(m, "赋值左侧必须是变量或索引"),
        other => panic!("unexpected {:?}", other),
    }
}

#[test]
fn block_forgets_its_functions() {
    let (_, r) = run("{ func g() -> int { return 1; }; }; g();");
    match r {
        Err(EvalError::Runtime(m)) => assert_eq!(m, "函数 'g' 未定义"),
        other => panic!("unexpected {:?}", other),
    }
}

#[test]
fn return_leaves_loops_and_blocks() {
    let (out, _) = run(
        "func f() -> int { int i; i := 0; while true do { { if i = 3 then { return i; }; }; i := i + 1; }; }; print f();",
    );
    assert_eq!(out, "3\n");
}

#[test]
fn statements_stop_at_the_first_error() {
    let (out, r) = run("print 1; print nope; print 2;");
    assert_eq!(out, "1\n");
    assert!(r.is_err());
}
