use comix::environment::Environment;
use comix::value::Value;

#[test]
fn test_define_and_get() {
    let mut env = Environment::new();
    env.define("x", Value::Int(10));
    assert_eq!(env.get("x"), Some(Value::Int(10)));
    assert_eq!(env.get("y"), None);
}

#[test]
fn test_nested_scope() {
    let mut parent = Environment::new();
    parent.define("a", Value::Int(1));
    let mut child = Environment::new_with_parent(parent);
    child.define("b", Value::Int(2));

    // the child sees the parent's variables
    assert_eq!(child.get("a"), Some(Value::Int(1)));
    // the parent that the child holds does not see the child's
    child.pop_scope();
    let parent = child;
    assert_eq!(parent.get("b"), None);
    assert_eq!(parent.get("a"), Some(Value::Int(1)));
}

#[test]
fn test_assign() {
    let mut env = Environment::new();
    env.define("x", Value::Int(0));
    env.assign("x", Value::Int(42)).unwrap();
    assert_eq!(env.get("x"), Some(Value::Int(42)));

    // assigning an undefined variable fails
    let result = env.assign("y", Value::Int(99));
    assert!(result.is_err());
}

#[test]
fn test_get_local() {
    let mut env = Environment::new();
    env.define("x", Value::Int(10));
    // a child scope shadows x
    let mut child = Environment::new_with_parent(env.deep_copy());
    child.define("x", Value::Int(20));

    assert_eq!(child.get("x"), Some(Value::Int(20)));
    assert_eq!(child.get_local("x"), Some(Value::Int(20)));
    assert_eq!(child.get_local("a"), None);
}

#[test]
fn test_defined_local() {
    let mut env = Environment::new();
    env.define("x", Value::Int(10));
    let child = Environment::new_with_parent(env.deep_copy());

    assert!(env.defined_local("x"));
    assert!(!child.defined_local("x"));
}

#[test]
fn test_dump_does_not_panic() {
    let mut env = Environment::new();
    env.define("foo", Value::Int(123));
    let mut child = Environment::new_with_parent(env.deep_copy());
    child.define("bar", Value::Bool(true));
    let mut out = String::new();
    child.dump_to_string(&mut out);
    println!("{}", out);
}

#[test]
fn dump_lists_each_scope_with_its_parent() {
    let mut env = Environment::new();
    env.define("foo", Value::Int(123));
    let mut child = Environment::new_with_parent(env.deep_copy());
    child.define("bar", Value::Bool(true));
    child.define("s", Value::String("hi".to_string()));
    let mut out = String::new();
    child.dump_to_string(&mut out);
    assert_eq!(
        out,
        "Environment (2 variables):\n  bar = true\n  s = hi\nparent:\n  Environment (1 variables):\n    foo = 123\n"
    );
}

#[test]
fn assign_reaches_the_innermost_scope_that_holds_the_name() {
    let mut env = Environment::new();
    env.define("x", Value::Int(1));
    env.push_scope();
    env.define("y", Value::Int(2));
    env.assign("x", Value::Int(5)).unwrap();
    assert_eq!(env.get("x"), Some(Value::Int(5)));
    assert_eq!(env.get_local("x"), None);
    env.pop_scope();
    assert_eq!(env.get("x"), Some(Value::Int(5)));
    assert_eq!(env.get("y"), None);
}

#[test]
fn assign_error_message_names_the_variable() {
    let mut env = Environment::new();
    assert_eq!(env.assign("zz", Value::Null), Err("变量 'zz' 未定义".to_string()));
}

#[test]
fn define_replaces_an_earlier_definition_in_the_same_scope() {
    let mut env = Environment::new();
    env.define("x", Value::Int(1));
    env.define("x", Value::Int(2));
    assert_eq!(env.get("x"), Some(Value::Int(2)));
    let mut out = String::new();
    env.dump_to_string(&mut out);
    assert_eq!(out, "Environment (1 variables):\n  x = 2\n");
}

#[test]
fn pop_scope_on_a_global_environment_keeps_it() {
    let mut env = Environment::new();
    env.define("x", Value::Int(1));
    env.pop_scope();
    assert_eq!(env.get("x"), Some(Value::Int(1)));
}
