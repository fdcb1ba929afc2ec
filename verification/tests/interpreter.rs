use asalang::error::AsaErrorKind;
use asalang::interpreter::{Interpreter, Value};
use asalang::lexer::lex;
use asalang::parser::parse_program;

fn run(src: &str) -> Result<Value, AsaErrorKind> {
    let (rest, tree) = parse_program(lex(src)).expect("program must parse");
    assert!(rest.is_done(), "program must consume all tokens");
    let mut interpreter = Interpreter::new();
    interpreter.exec(&tree)
}

fn run_main(src: &str) -> Result<Value, AsaErrorKind> {
    let (rest, tree) = parse_program(lex(src)).expect("program must parse");
    assert!(rest.is_done(), "program must consume all tokens");
    let mut interpreter = Interpreter::new();
    interpreter.exec(&tree).expect("definitions must register");
    interpreter.start_main(vec![])
}

#[test]
fn exec_number_literal() {
    assert_eq!(run("123"), Ok(Value::Number(123)));
}

#[test]
fn exec_addition() {
    assert_eq!(run("1 + 1"), Ok(Value::Number(2)));
}

#[test]
fn exec_comparison_false() {
    assert_eq!(run("0 >= 1"), Ok(Value::Bool(false)));
}

#[test]
fn exec_comparison_true() {
    assert_eq!(run("2 == 2"), Ok(Value::Bool(true)));
    assert_eq!(run("1 < 2"), Ok(Value::Bool(true)));
}

#[test]
fn exec_boolean_comparison_node() {
    // a boolean pair supports `eq_`/`neq`; the whole-program grammar commits
    // to the bare boolean first, so the comparison node is parsed directly
    let toks = asalang::lexer::lex("true != false");
    let (p, node) = asalang::parser::conditional_expression(&toks, 0).unwrap();
    assert_eq!(p, 3);
    let mut interpreter = Interpreter::new();
    assert_eq!(interpreter.exec(&node), Ok(Value::Bool(true)));
}

#[test]
fn exec_mismatched_comparison_types() {
    assert_eq!(
        run("1 < false"),
        Err(AsaErrorKind::Generic("Mismatched types in conditional expression".to_string()))
    );
}

#[test]
fn exec_math_on_boolean_operand() {
    assert_eq!(run("10 - false"), Err(AsaErrorKind::Generic("MathOperationError".to_string())));
}

#[test]
fn exec_main_calls_another_function() {
    assert_eq!(
        run_main("fn main(){return foo();} fn foo(){return 5;}"),
        Ok(Value::Number(5))
    );
}

#[test]
fn exec_main_passes_arguments() {
    assert_eq!(
        run_main("fn foo(a,b){return a+b;} fn main(){return foo(1,2);}"),
        Ok(Value::Number(3))
    );
}

#[test]
fn exec_undefined_function() {
    assert_eq!(run("foo()"), Err(AsaErrorKind::UndefinedFunction));
}

#[test]
fn exec_function_redefinition() {
    assert_eq!(
        run("fn main(){return 1;} fn main(){return 2;}"),
        Err(AsaErrorKind::Generic("Function 'main' redefined".to_string()))
    );
}

#[test]
fn exec_wrong_argument_count() {
    assert_eq!(
        run_main("fn foo(a){return a;} fn main(){return foo(1,2);}"),
        Err(AsaErrorKind::Generic(
            "Function 'foo' called with an incorrect number of arguments".to_string()
        ))
    );
}

#[test]
fn exec_variable_not_defined_in_comparison() {
    assert_eq!(run("x > 1"), Err(AsaErrorKind::VariableNotDefined(b"x".to_vec())));
}

#[test]
fn exec_string_literal() {
    assert_eq!(run(r#""abc""#), Ok(Value::String(b"abc".to_vec())));
}

#[test]
fn exec_boolean_literal() {
    assert_eq!(run("true"), Ok(Value::Bool(true)));
}

#[test]
fn exec_let_binding_value() {
    assert_eq!(run("let x = 5;"), Ok(Value::Number(5)));
}

#[test]
fn exec_addition_wraps_around() {
    assert_eq!(run("2147483647 + 1"), Ok(Value::Number(i32::MIN)));
    assert_eq!(run("0 - 2147483647"), Ok(Value::Number(-2147483647)));
}

#[test]
fn exec_unsupported_boolean_comparison() {
    let toks = asalang::lexer::lex("true > false");
    let (_, node) = asalang::parser::conditional_expression(&toks, 0).unwrap();
    let mut interpreter = Interpreter::new();
    assert_eq!(
        interpreter.exec(&node),
        Err(AsaErrorKind::Generic("Unsupported operator for boolean comparison".to_string()))
    );
}

#[test]
fn exec_definitions_alone_yield_true() {
    assert_eq!(run("fn main(){return 1;}"), Ok(Value::Bool(true)));
}

#[test]
fn exec_callee_reads_caller_local_in_math() {
    // The callee's arithmetic resolves `b` through the caller's still
    // active frame: dynamic scoping, innermost frame first.
    assert_eq!(
        run_main("fn main(){let b = 7; return foo(1);} fn foo(a){return a+b;}"),
        Ok(Value::Number(8))
    );
}

#[test]
fn exec_unbounded_recursion_is_rejected() {
    assert_eq!(
        run_main("fn main(){return main();}"),
        Err(AsaErrorKind::Generic("Maximum recursion depth exceeded".to_string()))
    );
}

#[test]
fn interpreters_are_independent() {
    let (_, tree) = parse_program(lex("fn main(){return 1;}")).unwrap();
    let mut a = Interpreter::new();
    assert_eq!(a.exec(&tree), Ok(Value::Bool(true)));
    // a fresh instance has no `main` registered
    let mut b = Interpreter::new();
    assert_eq!(b.start_main(vec![]), Err(AsaErrorKind::UndefinedFunction));
    assert_eq!(a.start_main(vec![]), Ok(Value::Number(1)));
}
