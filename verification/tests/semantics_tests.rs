use lisp_interpreter_rs::{default_env, eval, parse, tokenize, Expr};

fn run(env: &mut lisp_interpreter_rs::Env, text: &str) -> Result<Expr, String> {
    let tokens = tokenize(text);
    let token_refs: Vec<&str> = tokens.iter().map(|s| s.as_str()).collect();
    let expr = parse(&token_refs).expect("program should parse");
    eval(&expr, env)
}

// Division truncates toward zero, as the machine divides.
#[test]
fn test_division_truncates_toward_zero() {
    let mut env = default_env();
    assert_eq!(run(&mut env, "(/ 7 2)"), Ok(Expr::Number(3)));
    assert_eq!(run(&mut env, "(/ -7 2)"), Ok(Expr::Number(-3)));
    assert_eq!(run(&mut env, "(/ 7 -2)"), Ok(Expr::Number(-3)));
    assert_eq!(run(&mut env, "(/ -7 -2)"), Ok(Expr::Number(3)));
}

// Dividing by zero always fails, whatever the dividend.
#[test]
fn test_division_by_zero_always_fails() {
    let mut env = default_env();
    for a in ["0", "1", "-1", "2147483647", "-2147483648"] {
        let r = run(&mut env, &format!("(/ {} 0)", a));
        assert_eq!(r, Err("cannot divide by 0".to_string()));
    }
}

// A closure's captured bindings are not changed by later top-level defines.
#[test]
fn test_closure_unaffected_by_later_define() {
    let mut env = default_env();
    run(&mut env, "(define make-adder (lambda (x) (lambda (y) (+ x y))))").unwrap();
    run(&mut env, "(define add5 (make-adder 5))").unwrap();
    assert_eq!(run(&mut env, "(add5 10)"), Ok(Expr::Number(15)));
    run(&mut env, "(define x 999)").unwrap();
    assert_eq!(run(&mut env, "(add5 10)"), Ok(Expr::Number(15)));
}

// A name visible at the call site, and bound by neither the closure nor the
// parameters, is visible inside the body: the call frame starts from the
// caller's environment.
#[test]
fn test_call_site_names_leak_into_body() {
    let mut env = default_env();
    run(&mut env, "(define f (lambda () y))").unwrap();
    assert!(run(&mut env, "(f)").is_err());
    run(&mut env, "(define y 7)").unwrap();
    assert_eq!(run(&mut env, "(f)"), Ok(Expr::Number(7)));
}

// `*` demands at least two arguments.
#[test]
fn test_multiplication_single_argument_fails() {
    let mut env = default_env();
    assert_eq!(
        run(&mut env, "(* 7)"),
        Err("* requires at least 2 numbers".to_string())
    );
}

// `+` of no arguments is zero; `-` of no arguments fails.
#[test]
fn test_zero_argument_operators() {
    let mut env = default_env();
    assert_eq!(run(&mut env, "(+)"), Ok(Expr::Number(0)));
    assert!(run(&mut env, "(-)").is_err());
}

// `/` consults only its first two arguments.
#[test]
fn test_division_ignores_extra_arguments() {
    let mut env = default_env();
    assert_eq!(run(&mut env, "(/ 20 4 7)"), Ok(Expr::Number(5)));
}

// Arithmetic wraps modulo 2^32 instead of aborting.
#[test]
fn test_arithmetic_wraps() {
    let mut env = default_env();
    assert_eq!(run(&mut env, "(+ 2147483647 1)"), Ok(Expr::Number(-2147483648)));
    assert_eq!(run(&mut env, "(- -2147483648 1)"), Ok(Expr::Number(2147483647)));
    assert_eq!(run(&mut env, "(* 65536 65536)"), Ok(Expr::Number(0)));
    assert_eq!(run(&mut env, "(- -2147483648)"), Ok(Expr::Number(-2147483648)));
    assert_eq!(run(&mut env, "(/ -2147483648 -1)"), Ok(Expr::Number(-2147483648)));
}

// A number condition is truthy exactly when it is nonzero; anything else
// than a boolean or a number is rejected.
#[test]
fn test_if_number_condition() {
    let mut env = default_env();
    assert_eq!(run(&mut env, "(if 7 1 2)"), Ok(Expr::Number(1)));
    assert_eq!(run(&mut env, "(if 0 1 2)"), Ok(Expr::Number(2)));
    assert_eq!(
        run(&mut env, "(if (lambda (x) x) 1 2)"),
        Err("if condition must be a boolean".to_string())
    );
}

// `define` needs a value, and a bare symbol to bind.
#[test]
fn test_define_errors() {
    let mut env = default_env();
    assert_eq!(
        run(&mut env, "(define x)"),
        Err("define requires 2 arguments".to_string())
    );
    assert_eq!(
        run(&mut env, "(define 5 1)"),
        Err("define requires a symbol as first argument".to_string())
    );
}

// The value expression of a failing `define` still acts on the environment.
#[test]
fn test_define_side_effect_survives_failure() {
    let mut env = default_env();
    assert!(run(&mut env, "(define 5 (define kept 1))").is_err());
    assert_eq!(run(&mut env, "kept"), Ok(Expr::Number(1)));
}

// Binding an operator name to a non-function does not hide the builtin,
// but binding it to a lambda does.
#[test]
fn test_builtin_shadowing() {
    let mut env = default_env();
    run(&mut env, "(define + 5)").unwrap();
    assert_eq!(run(&mut env, "(+ 1 2)"), Ok(Expr::Number(3)));
    run(&mut env, "(define + (lambda (x y) 42))").unwrap();
    assert_eq!(run(&mut env, "(+ 1 2)"), Ok(Expr::Number(42)));
}

// A lambda in head position is evaluated and applied directly.
#[test]
fn test_immediate_lambda_call() {
    let mut env = default_env();
    assert_eq!(run(&mut env, "((lambda (x) (* x x)) 6)"), Ok(Expr::Number(36)));
}

// A head that is neither a symbol nor a lambda is rejected.
#[test]
fn test_head_not_a_function() {
    let mut env = default_env();
    assert_eq!(
        run(&mut env, "((+ 1 2) 3)"),
        Err("first element must be a function name".to_string())
    );
}

// Calling a function with the wrong number of arguments names both counts.
#[test]
fn test_call_arity_message() {
    let mut env = default_env();
    run(&mut env, "(define double (lambda (x) (* x 2)))").unwrap();
    assert_eq!(
        run(&mut env, "(double 1 2)"),
        Err("function expects 1 arguments, got 2".to_string())
    );
}

// Lambda forms are strict about their own shape.
#[test]
fn test_lambda_form_errors() {
    let mut env = default_env();
    assert_eq!(
        run(&mut env, "(lambda (x))"),
        Err("lambda requires 2 arguments: params and body".to_string())
    );
    assert_eq!(
        run(&mut env, "(lambda x x)"),
        Err("lambda parameters must be a list".to_string())
    );
    assert_eq!(
        run(&mut env, "(lambda (x 1) x)"),
        Err("lambda parameters must be symbols".to_string())
    );
}

// Out-of-range integer literals are not numbers; they read as symbols.
#[test]
fn test_number_literal_range() {
    let mut env = default_env();
    assert_eq!(run(&mut env, "-2147483648"), Ok(Expr::Number(-2147483648)));
    assert_eq!(run(&mut env, "2147483647"), Ok(Expr::Number(2147483647)));
    assert_eq!(
        run(&mut env, "2147483648"),
        Err("undefined variable: 2147483648".to_string())
    );
}

// A leading plus sign reads as part of a number, as the host parses it.
#[test]
fn test_plus_sign_literal() {
    let mut env = default_env();
    assert_eq!(run(&mut env, "+5"), Ok(Expr::Number(5)));
    assert!(run(&mut env, "+").is_err());
}

// Builtin operator names are not values: referring to one outside head
// position is an undefined variable.
#[test]
fn test_operator_names_are_not_values() {
    let mut env = default_env();
    assert_eq!(
        run(&mut env, "(define f +)"),
        Err("undefined variable: +".to_string())
    );
}

// A symbol bound to anything but a lambda does not work as an alias: the
// head symbol itself is read as the operator name.
#[test]
fn test_operator_alias_does_not_apply() {
    let mut env = default_env();
    run(&mut env, "(define f 5)").unwrap();
    assert_eq!(
        run(&mut env, "(f 1 2)"),
        Err("unknown function: f".to_string())
    );
}

// `define` hands back the defined value as the form's own result.
#[test]
fn test_define_returns_value() {
    let mut env = default_env();
    assert_eq!(run(&mut env, "(define x 41)"), Ok(Expr::Number(41)));
}
