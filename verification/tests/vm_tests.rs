use slang::parser::ast::{parse_str, Expr};
use slang::utils::SError;
use slang::vm::{execute_expr, execute_str, SContext, SValue, CALL_DEPTH_LIMIT};

#[test]
fn test_none() {
    assert_eq!(execute_str("none", &mut SContext::new()), Ok(SValue::NoneVal));
}

#[test]
fn test_number() {
    assert_eq!(execute_str("0", &mut SContext::new()), Ok(SValue::Number(0)));
    assert_eq!(execute_str("1", &mut SContext::new()), Ok(SValue::Number(1)));
}

#[test]
fn test_bool() {
    assert_eq!(execute_str("true", &mut SContext::new()), Ok(SValue::Bool(true)));
    assert_eq!(execute_str("false", &mut SContext::new()), Ok(SValue::Bool(false)));
}

#[test]
fn test_block() {
    assert_eq!(execute_str("{}", &mut SContext::new()), Ok(SValue::NoneVal));
    assert_eq!(execute_str("{0}", &mut SContext::new()), Ok(SValue::Number(0)));
    assert_eq!(execute_str("{0 1}", &mut SContext::new()), Ok(SValue::Number(1)));
}

#[test]
fn test_binary_op() {
    assert_eq!(execute_str("1 + 2", &mut SContext::new()), Ok(SValue::Number(3)));
}

#[test]
fn test_arithmetic() {
    assert_eq!(execute_str("1 - 2", &mut SContext::new()), Ok(SValue::Number(-1)));
    assert_eq!(execute_str("1 * 2", &mut SContext::new()), Ok(SValue::Number(2)));
    assert_eq!(execute_str("1 / 2", &mut SContext::new()), Ok(SValue::Number(0)));
    assert_eq!(execute_str("7 / 2", &mut SContext::new()), Ok(SValue::Number(3)));
    // truncation goes toward zero, also below it
    assert_eq!(execute_str("(0 - 7) / 2", &mut SContext::new()), Ok(SValue::Number(-3)));
    assert_eq!(execute_str("1 / 0", &mut SContext::new()), Err(SError::VMDivisionByZero));
    // addition wraps around on 32-bit overflow
    assert_eq!(execute_str("2147483647 + 1", &mut SContext::new()), Ok(SValue::Number(-2147483648)));
}

#[test]
fn test_comparisons() {
    assert_eq!(execute_str("1 == 1", &mut SContext::new()), Ok(SValue::Bool(true)));
    assert_eq!(execute_str("1 == 2", &mut SContext::new()), Ok(SValue::Bool(false)));
    assert_eq!(execute_str("1 != 1", &mut SContext::new()), Ok(SValue::Bool(false)));
    assert_eq!(execute_str("1 != 2", &mut SContext::new()), Ok(SValue::Bool(true)));
    assert_eq!(execute_str("1 < 0", &mut SContext::new()), Ok(SValue::Bool(false)));
    assert_eq!(execute_str("1 <= 1", &mut SContext::new()), Ok(SValue::Bool(true)));
    assert_eq!(execute_str("1 < 2", &mut SContext::new()), Ok(SValue::Bool(true)));
    assert_eq!(execute_str("1 > 0", &mut SContext::new()), Ok(SValue::Bool(true)));
    assert_eq!(execute_str("1 >= 2", &mut SContext::new()), Ok(SValue::Bool(false)));
    assert_eq!(execute_str("1 >= 1", &mut SContext::new()), Ok(SValue::Bool(true)));
    // booleans and none coerce to numbers first
    assert_eq!(execute_str("true == 1", &mut SContext::new()), Ok(SValue::Bool(true)));
    assert_eq!(execute_str("none == 0", &mut SContext::new()), Ok(SValue::Bool(true)));
}

#[test]
fn test_logic() {
    assert_eq!(execute_str("true and true", &mut SContext::new()), Ok(SValue::Bool(true)));
    assert_eq!(execute_str("true and false", &mut SContext::new()), Ok(SValue::Bool(false)));
    assert_eq!(execute_str("true and none", &mut SContext::new()), Ok(SValue::Bool(false)));
    assert_eq!(execute_str("none and none", &mut SContext::new()), Ok(SValue::Bool(false)));
    assert_eq!(execute_str("true or none", &mut SContext::new()), Ok(SValue::Bool(true)));
    assert_eq!(execute_str("none or true", &mut SContext::new()), Ok(SValue::Bool(true)));
    assert_eq!(execute_str("none or none", &mut SContext::new()), Ok(SValue::Bool(false)));
    assert_eq!(execute_str("2 and 3", &mut SContext::new()), Ok(SValue::Bool(true)));
}

#[test]
fn test_assign() {
    let mut ctx = SContext::new();
    execute_str("x = 1", &mut ctx).unwrap();
    assert_eq!(ctx.get("x"), Some(&SValue::Number(1)));

    let mut ctx = SContext::new();
    execute_str("x = 1", &mut ctx).unwrap();
    execute_str("x = 2", &mut ctx).unwrap();
    assert_eq!(ctx.get("x"), Some(&SValue::Number(2)));

    let mut ctx = SContext::new();
    execute_str("x = 1", &mut ctx).unwrap();
    execute_str("y = 2", &mut ctx).unwrap();
    assert_eq!(ctx.get("x"), Some(&SValue::Number(1)));
    assert_eq!(ctx.get("y"), Some(&SValue::Number(2)));
}

#[test]
fn test_assign_errors() {
    assert_eq!(execute_str("0 = x", &mut SContext::new()), Err(SError::VMCannotAssignNonVariable));
}

#[test]
fn test_function() {
    let mut ctx = SContext::new();
    execute_str("fn main(x, y) 0", &mut ctx).unwrap();
    assert_eq!(ctx.get("main"), Some(&SValue::Function{
        params: vec!["x".to_string(), "y".to_string()],
        body: Expr::Number(0),
    }));
}

#[test]
fn test_call() {
    let mut ctx = SContext::new();
    execute_str("fn zero() 0", &mut ctx).unwrap();
    execute_str("fn one() 1", &mut ctx).unwrap();
    execute_str("foo = 0", &mut ctx).unwrap();
    assert_eq!(execute_str("zero()", &mut ctx), Ok(SValue::Number(0)));
    assert_eq!(execute_str("one()", &mut ctx), Ok(SValue::Number(1)));
    assert_eq!(execute_str("bar()", &mut ctx), Err(SError::VMVariableDoesntExist));
    assert_eq!(execute_str("foo()", &mut ctx), Err(SError::VMCannotCallNonFunction));
    assert_eq!(execute_str("one(1)", &mut ctx), Err(SError::VMMismatchArgumentListLength));
}

#[test]
fn test_full() {
    let mut ctx = SContext::new();
    assert_eq!(execute_str("{fn zero() 0 zero()}", &mut ctx), Ok(SValue::Number(0)));
}

#[test]
fn test_call_binds_arguments() {
    let mut ctx = SContext::new();
    execute_str("fn add(a, b) a + b", &mut ctx).unwrap();
    // the arguments are bound before the body runs; the body itself then
    // stops on the bare variable reads, which the evaluator does not cover
    assert_eq!(execute_str("add(2, 3)", &mut ctx), Err(SError::VMUnsupportedExpression));
    // the bindings lived in the call's own scope and ended with it
    assert_eq!(ctx.get("a"), None);
    assert_eq!(ctx.get("b"), None);
}

#[test]
fn test_call_scope_is_isolated() {
    // a parameter shadows a global of the same name without touching it
    let mut ctx = SContext::new();
    execute_str("x = 5", &mut ctx).unwrap();
    execute_str("fn f(x) 0", &mut ctx).unwrap();
    assert_eq!(execute_str("f(1)", &mut ctx), Ok(SValue::Number(0)));
    assert_eq!(ctx.get("x"), Some(&SValue::Number(5)));

    // a body's assignment to an outer name falls back to that name's scope
    let mut ctx = SContext::new();
    execute_str("x = 1", &mut ctx).unwrap();
    execute_str("fn set2() x = 2", &mut ctx).unwrap();
    assert_eq!(execute_str("set2()", &mut ctx), Ok(SValue::NoneVal));
    assert_eq!(ctx.get("x"), Some(&SValue::Number(2)));

    // a body's fresh name is created in the call's scope and vanishes with it
    let mut ctx = SContext::new();
    execute_str("fn mk() y = 7", &mut ctx).unwrap();
    assert_eq!(execute_str("mk()", &mut ctx), Ok(SValue::NoneVal));
    assert_eq!(ctx.get("y"), None);
}

#[test]
fn test_call_sees_outer_functions() {
    // name lookup falls back through the chain to the global scope
    let mut ctx = SContext::new();
    assert_eq!(
        execute_str("{fn g() 7 fn f() g() f()}", &mut ctx),
        Ok(SValue::Number(7))
    );
}

#[test]
fn test_unsupported_constructs() {
    assert_eq!(execute_str("x", &mut SContext::new()), Err(SError::VMUnsupportedExpression));
    assert_eq!(execute_str("return 0", &mut SContext::new()), Err(SError::VMUnsupportedExpression));
}

#[test]
fn test_function_value_has_no_number() {
    // a function value reaching an arithmetic operand is the coercion error;
    // built by hand, since a bare variable read is itself unsupported
    let e = Expr::BinaryOp {
        op: "+".to_string(),
        lhs: Box::new(Expr::Function { params: vec![], body: Box::new(Expr::Number(0)) }),
        rhs: Box::new(Expr::Number(1)),
    };
    let mut ctx = SContext::new();
    assert_eq!(execute_expr(&e, &mut ctx, CALL_DEPTH_LIMIT), Err(SError::VMCannotConvertToNumber));
}

#[test]
fn test_recursion_limit() {
    let mut ctx = SContext::new();
    assert_eq!(execute_str("{fn f() f() f()}", &mut ctx), Err(SError::VMRecursionLimit));
}

#[test]
fn test_reevaluation_is_stable() {
    // the same parsed tree, against fresh environments, twice each
    let e = parse_str("{fn zero() 0 zero()}").unwrap();
    let mut ctx1 = SContext::new();
    let mut ctx2 = SContext::new();
    let r1 = execute_expr(&e, &mut ctx1, CALL_DEPTH_LIMIT);
    let r2 = execute_expr(&e, &mut ctx2, CALL_DEPTH_LIMIT);
    assert_eq!(r1, Ok(SValue::Number(0)));
    assert_eq!(r1, r2);
    assert_eq!(ctx1.get("zero"), ctx2.get("zero"));

    let e2 = parse_str("x = 40 + 2").unwrap();
    let mut ctx3 = SContext::new();
    let mut ctx4 = SContext::new();
    assert_eq!(
        execute_expr(&e2, &mut ctx3, CALL_DEPTH_LIMIT),
        execute_expr(&e2, &mut ctx4, CALL_DEPTH_LIMIT)
    );
    assert_eq!(ctx3.get("x"), Some(&SValue::Number(42)));
    assert_eq!(ctx4.get("x"), Some(&SValue::Number(42)));
}

#[test]
fn test_precedence_in_evaluation() {
    assert_eq!(execute_str("2 + 3 * 4", &mut SContext::new()), Ok(SValue::Number(14)));
    assert_eq!(execute_str("10 - 2 - 3", &mut SContext::new()), Ok(SValue::Number(5)));
    assert_eq!(execute_str("(2 + 3) * 4", &mut SContext::new()), Ok(SValue::Number(20)));
    assert_eq!(execute_str("1 + 1 == 2", &mut SContext::new()), Ok(SValue::Bool(true)));
}
