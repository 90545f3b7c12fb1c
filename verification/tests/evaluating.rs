//! Tests of the evaluator: arithmetic, comparisons, scoping, printing, and
//! runtime errors.

use rox::ast::Bop;
use rox::interpret::{Error, Interpreter, Kind, OpKind, Value};
use rox::lex::Scanner;
use rox::parse::{Expr, Lit, Parser, Stmt, Unary};

/// Lex, parse and evaluate one statement in a fresh global scope; the
/// printed lines come back as strings.
fn run(src: &str) -> Result<Vec<String>, Error> {
    let mut scanner = Scanner::new(src.as_bytes());
    let toks = scanner.scan().expect("lexing failed");
    let mut parser = Parser::new(&toks);
    let stmt = parser.parse_stmt().expect("parsing failed").expect("no statement");
    let mut interp = Interpreter::new();
    interp.push_scope();
    interp.eval_stmt(&stmt)?;
    Ok(interp
        .into_output()
        .into_iter()
        .map(|l| String::from_utf8(l).unwrap())
        .collect())
}

/// Lex, parse and evaluate one expression in a fresh interpreter.
fn eval(src: &str) -> Result<Value, Error> {
    let mut scanner = Scanner::new(src.as_bytes());
    let toks = scanner.scan().expect("lexing failed");
    let mut parser = Parser::new(&toks);
    let expr = parser.parse_expr().expect("parsing failed");
    let mut interp = Interpreter::new();
    interp.eval_expr(&expr)
}

fn num(v: f64) -> Value {
    Value::Number(v.to_bits())
}

#[test]
fn arithmetic_follows_ieee_doubles() {
    assert_eq!(eval("1 + 2").unwrap(), num(3.0));
    assert_eq!(eval("7 - 2.5").unwrap(), num(4.5));
    assert_eq!(eval("6 * 7").unwrap(), num(42.0));
    assert_eq!(eval("1 / 4").unwrap(), num(0.25));
    assert_eq!(eval("0.1 + 0.2").unwrap(), num(0.1f64 + 0.2f64));
    assert_eq!(eval("2 + 3 * 4").unwrap(), num(14.0));
    assert_eq!(eval("10 - 2 - 3").unwrap(), num(5.0));
}

#[test]
fn division_by_zero_gives_infinities_not_errors() {
    assert_eq!(eval("1 / 0").unwrap(), num(f64::INFINITY));
    assert_eq!(eval("-1 / 0").unwrap(), num(f64::NEG_INFINITY));
    // 0 / 0 is a NaN; a NaN never compares equal, so check its bits' shape.
    match eval("0 / 0").unwrap() {
        Value::Number(bits) => assert!(f64::from_bits(bits).is_nan()),
        other => panic!("expected a number, got {:?}", other),
    }
}

#[test]
fn negation_and_not() {
    assert_eq!(eval("-3").unwrap(), num(-3.0));
    assert_eq!(eval("--3").unwrap(), num(3.0));
    assert_eq!(eval("!true").unwrap(), Value::Bool(false));
    assert_eq!(eval("!!true").unwrap(), Value::Bool(true));
}

#[test]
fn orderings_compare_numbers() {
    assert_eq!(eval("1 < 2").unwrap(), Value::Bool(true));
    assert_eq!(eval("2 < 1").unwrap(), Value::Bool(false));
    assert_eq!(eval("2 <= 2").unwrap(), Value::Bool(true));
    assert_eq!(eval("3 > 2").unwrap(), Value::Bool(true));
    assert_eq!(eval("2 >= 3").unwrap(), Value::Bool(false));
    // Orderings on a NaN are all false.
    assert_eq!(eval("0 / 0 < 1").unwrap(), Value::Bool(false));
    assert_eq!(eval("0 / 0 >= 1").unwrap(), Value::Bool(false));
}

#[test]
fn equality_compares_values_of_one_kind() {
    assert_eq!(eval("1 + 1 == 2").unwrap(), Value::Bool(true));
    assert_eq!(eval("1 != 2").unwrap(), Value::Bool(true));
    assert_eq!(eval("\"a\" == \"a\"").unwrap(), Value::Bool(true));
    assert_eq!(eval("\"a\" == \"b\"").unwrap(), Value::Bool(false));
    assert_eq!(eval("true == true").unwrap(), Value::Bool(true));
    assert_eq!(eval("nil == nil").unwrap(), Value::Bool(true));
    // A NaN is not even equal to itself.
    assert_eq!(eval("0 / 0 == 0 / 0").unwrap(), Value::Bool(false));
    assert_eq!(eval("0 / 0 != 0 / 0").unwrap(), Value::Bool(true));
}

#[test]
fn mixed_kind_equality_is_a_type_error() {
    assert_eq!(
        eval("1 == \"1\""),
        Err(Error::TypeMismatch {
            expected: Kind::Number,
            found: Value::Str(b"1".to_vec()),
            op: OpKind::Binary(Bop::Equal),
        })
    );
    assert!(matches!(
        eval("nil != 0"),
        Err(Error::TypeMismatch { expected: Kind::Nil, .. })
    ));
}

#[test]
fn ill_typed_operands_are_type_errors() {
    assert_eq!(
        eval("-\"x\""),
        Err(Error::TypeMismatch {
            expected: Kind::Number,
            found: Value::Str(b"x".to_vec()),
            op: OpKind::Unary(Unary::Negate),
        })
    );
    assert_eq!(
        eval("!1"),
        Err(Error::TypeMismatch {
            expected: Kind::Bool,
            found: Value::Number(1.0f64.to_bits()),
            op: OpKind::Unary(Unary::Not),
        })
    );
    assert!(matches!(
        eval("1 + nil"),
        Err(Error::TypeMismatch { expected: Kind::Number, found: Value::Nil, .. })
    ));
    assert!(matches!(
        eval("true < false"),
        Err(Error::TypeMismatch { expected: Kind::Number, .. })
    ));
}

#[test]
fn left_operand_evaluates_before_right() {
    // Both operands are ill-typed; the left one is reported.
    assert!(matches!(
        eval("\"a\" + nil"),
        Err(Error::TypeMismatch { found: Value::Str(_), .. })
    ));
}

#[test]
fn undefined_variable_fails_without_panicking() {
    assert_eq!(
        run("print y;"),
        Err(Error::UndefinedVariable(b"y".to_vec()))
    );
    assert_eq!(eval("missing"), Err(Error::UndefinedVariable(b"missing".to_vec())));
}

#[test]
fn inner_shadowing_is_undone_when_the_block_ends() {
    assert_eq!(
        run("{ var x = 1; { var x = 2; print x; }; print x; }").unwrap(),
        vec!["2".to_string(), "1".to_string()]
    );
}

#[test]
fn inner_bindings_do_not_outlive_their_block() {
    assert_eq!(
        run("{ { var x = 2; }; print x; }"),
        Err(Error::UndefinedVariable(b"x".to_vec()))
    );
}

#[test]
fn outer_bindings_are_visible_inside_blocks() {
    assert_eq!(
        run("{ var x = 41; { print x + 1; }; }").unwrap(),
        vec!["42".to_string()]
    );
}

#[test]
fn assignment_rebinds_within_one_scope() {
    assert_eq!(
        run("{ var x = 1; var x = 2; print x; }").unwrap(),
        vec!["2".to_string()]
    );
}

#[test]
fn print_renders_each_kind_of_value() {
    assert_eq!(run("print 2;").unwrap(), vec!["2".to_string()]);
    assert_eq!(run("print 2.5;").unwrap(), vec!["2.5".to_string()]);
    assert_eq!(run("print \"hi\";").unwrap(), vec!["hi".to_string()]);
    assert_eq!(run("print true;").unwrap(), vec!["true".to_string()]);
    assert_eq!(run("print false;").unwrap(), vec!["false".to_string()]);
    assert_eq!(run("print nil;").unwrap(), vec!["nil".to_string()]);
}

#[test]
fn a_failing_block_keeps_the_output_before_the_failure() {
    let mut scanner = Scanner::new(b"{ print 1; print y; print 2; }");
    let toks = scanner.scan().unwrap();
    let mut parser = Parser::new(&toks);
    let stmt = parser.parse_stmt().unwrap().unwrap();
    let mut interp = Interpreter::new();
    assert_eq!(
        interp.eval_stmt(&stmt),
        Err(Error::UndefinedVariable(b"y".to_vec()))
    );
    assert_eq!(interp.output().len(), 1);
    assert_eq!(interp.output()[0], b"1".to_vec());
    // The block's scope was popped on the error path.
    assert_eq!(interp.depth(), 0);
}

#[test]
fn eval_expr_leaves_state_untouched() {
    let mut interp = Interpreter::new();
    interp.push_scope();
    let expr = Expr::Binary(
        Bop::Add,
        Box::new(Expr::Lit(Lit::Number(1.0f64.to_bits()))),
        Box::new(Expr::Lit(Lit::Number(2.0f64.to_bits()))),
    );
    assert_eq!(interp.eval_expr(&expr).unwrap(), num(3.0));
    assert_eq!(interp.depth(), 1);
    assert!(interp.output().is_empty());
}

#[test]
fn duplicate_copies_a_value() {
    let v = Value::Str(b"abc".to_vec());
    assert_eq!(v.duplicate(), v);
    let n = Value::Number(2.5f64.to_bits());
    assert_eq!(n.duplicate(), n);
}

#[test]
fn render_matches_print() {
    assert_eq!(Interpreter::render(&Value::Nil), b"nil".to_vec());
    assert_eq!(Interpreter::render(&Value::Bool(true)), b"true".to_vec());
    assert_eq!(Interpreter::render(&Value::Str(b"s".to_vec())), b"s".to_vec());
    assert_eq!(Interpreter::render(&num(7.0)), b"7".to_vec());
}

#[test]
fn statements_in_a_block_run_in_order() {
    let stmt = Stmt::Block(vec![
        Stmt::Assign { lhs: b"a".to_vec(), rhs: Expr::Lit(Lit::Number(1.0f64.to_bits())) },
        Stmt::Print(Expr::Lit(Lit::Var(b"a".to_vec()))),
        Stmt::Assign {
            lhs: b"a".to_vec(),
            rhs: Expr::Binary(
                Bop::Add,
                Box::new(Expr::Lit(Lit::Var(b"a".to_vec()))),
                Box::new(Expr::Lit(Lit::Number(1.0f64.to_bits()))),
            ),
        },
        Stmt::Print(Expr::Lit(Lit::Var(b"a".to_vec()))),
    ]);
    let mut interp = Interpreter::new();
    interp.eval_stmt(&stmt).unwrap();
    let out: Vec<String> = interp
        .into_output()
        .into_iter()
        .map(|l| String::from_utf8(l).unwrap())
        .collect();
    assert_eq!(out, vec!["1".to_string(), "2".to_string()]);
}
