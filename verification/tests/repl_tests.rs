use comix::environment::Environment;
use comix::gui::ComixApp;
use comix::repl::{run_script, Repl};

fn feed(repl: &mut Repl, line: &str) -> (String, String, bool) {
    let r = repl.feed(line);
    (r.stdout, r.stderr, r.exit)
}

#[test]
fn readme_session_prints_values() {
    let mut repl = Repl::new();
    assert_eq!(repl.prompt(), "> ");
    assert_eq!(feed(&mut repl, "int x;"), (String::new(), String::new(), false));
    assert_eq!(feed(&mut repl, "x := 42;"), ("42\n".to_string(), String::new(), false));
    assert_eq!(feed(&mut repl, "x * 2;"), ("84\n".to_string(), String::new(), false));
    assert_eq!(feed(&mut repl, "string s;").0, "");
    assert_eq!(feed(&mut repl, "s := \"Hello \" + \"World\";").0, "Hello World\n");
}

#[test]
fn readme_continued_input() {
    let mut repl = Repl::new();
    assert_eq!(feed(&mut repl, "func add(int a, int b) -> int { \\"), (String::new(), String::new(), false));
    assert_eq!(repl.prompt(), "... ");
    assert_eq!(feed(&mut repl, "    return a + b; \\").0, "");
    assert_eq!(repl.prompt(), "... ");
    assert_eq!(feed(&mut repl, "};"), (String::new(), String::new(), false));
    assert_eq!(repl.prompt(), "> ");
    assert_eq!(feed(&mut repl, "print add(3, 5);").0, "8\n");
}

#[test]
fn empty_line_ends_continued_input() {
    let mut repl = Repl::new();
    feed(&mut repl, "print 1; \\");
    assert_eq!(feed(&mut repl, ""), ("1\n".to_string(), String::new(), false));
    assert_eq!(repl.prompt(), "> ");
}

#[test]
fn empty_fresh_line_does_nothing() {
    let mut repl = Repl::new();
    assert_eq!(feed(&mut repl, ""), (String::new(), String::new(), false));
    assert_eq!(repl.prompt(), "> ");
}

#[test]
fn commands_exit_clear_dump() {
    let mut repl = Repl::new();
    feed(&mut repl, "int x;");
    feed(&mut repl, "x := 5;");
    assert_eq!(feed(&mut repl, "dump").0, "Environment (1 variables):\n  x = 5\n");
    assert_eq!(feed(&mut repl, "clear").0, "环境已清除\n");
    assert_eq!(feed(&mut repl, "dump").0, "Environment (0 variables):\n");
    assert_eq!(feed(&mut repl, "x;").1, "运行时错误: 1:1 变量 'x' 未定义\n");
    assert_eq!(feed(&mut repl, "exit"), (String::new(), String::new(), true));
}

#[test]
fn errors_go_to_the_error_stream() {
    let mut repl = Repl::new();
    let (out, err, _) = feed(&mut repl, "x := ;");
    assert_eq!(out, "");
    assert_eq!(err, "解析错误: 1:6 未识别的 token ';', 期望: [\"表达式\"]\n");
    let (out, err, _) = feed(&mut repl, "print 7; print 1 / 0;");
    assert_eq!(out, "7\n");
    assert_eq!(err, "运行时错误: 除数不能为零\n");
}

#[test]
fn scripts_report_their_status() {
    let r = run_script("\u{feff}int result;\nresult := 2 + 3;\nprint result;\n");
    assert_eq!((r.stdout.as_str(), r.stderr.as_str(), r.status), ("5\n", "", 0));
    let r = run_script("print 1;\nprint 2 +;");
    assert_eq!(r.status, 65);
    assert_eq!(r.stderr, "解析错误: 2:10 未识别的 token ';', 期望: [\"表达式\"]\n");
    let r = run_script("print 1; print nope;");
    assert_eq!(r.status, 70);
    assert_eq!(r.stdout, "1\n");
    assert_eq!(r.stderr, "运行时错误: 1:16 变量 'nope' 未定义\n");
    let r = run_script("int x; x := 3;");
    assert_eq!((r.stdout.as_str(), r.status), ("3\n", 0));
}

#[test]
fn run_button_reports_completion_and_variables() {
    let mut app = ComixApp::new(Environment::new(), String::new());
    assert_eq!(app.source, "");
    app.source = "int x; x := 5; print x;".to_string();
    let printed = app.run_code();
    assert_eq!(printed, "5\n");
    assert_eq!(app.output, "Execution completed.\nVariables:\nEnvironment (1 variables):\n  x = 5\n");
}

#[test]
fn run_button_reports_errors() {
    let mut app = ComixApp::new(Environment::new(), String::new());
    app.source = "print y;".to_string();
    app.run_code();
    assert_eq!(app.output, "Runtime error: 1:7 变量 'y' 未定义\n");
    app.source = "print ;".to_string();
    app.run_code();
    assert_eq!(app.output, "Parse error: 1:7 未识别的 token ';', 期望: [\"表达式\"]\n");
    app.source = "return 4;".to_string();
    app.run_code();
    assert_eq!(app.output, "Function returned: 4\n");
}

#[test]
fn error_positions_count_within_each_input() {
    let mut repl = Repl::new();
    feed(&mut repl, "int x;");
    assert_eq!(feed(&mut repl, "x := y + 1;").1, "运行时错误: 1:6 变量 'y' 未定义\n");
    assert_eq!(
        feed(&mut repl, "print ;").1,
        "解析错误: 1:7 未识别的 token ';', 期望: [\"表达式\"]\n"
    );
    feed(&mut repl, "print 1; \\");
    assert_eq!(feed(&mut repl, "print z;"), ("1\n".to_string(), "运行时错误: 2:7 变量 'z' 未定义\n".to_string(), false));
}
