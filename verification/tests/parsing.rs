//! Tests of the parser: precedence, associativity, statements, and errors.

use rox::ast::Bop;
use rox::lex::Scanner;
use rox::parse::{Error, Expected, Expr, Lit, Parser, Stmt, Unary};
use rox::token::T;

/// Lex a source text and parse one statement from it.
fn parse_stmt(src: &str) -> Result<Option<Stmt>, Error> {
    let mut scanner = Scanner::new(src.as_bytes());
    let toks = scanner.scan().expect("lexing failed");
    let mut parser = Parser::new(&toks);
    parser.parse_stmt()
}

/// Lex a source text and parse one expression from it.
fn parse_expr(src: &str) -> Result<Expr, Error> {
    let mut scanner = Scanner::new(src.as_bytes());
    let toks = scanner.scan().expect("lexing failed");
    let mut parser = Parser::new(&toks);
    parser.parse_expr()
}

fn num(v: f64) -> Expr {
    Expr::Lit(Lit::Number(v.to_bits()))
}

fn bin(op: Bop, l: Expr, r: Expr) -> Expr {
    Expr::Binary(op, Box::new(l), Box::new(r))
}

#[test]
fn multiplication_binds_tighter_than_addition() {
    assert_eq!(
        parse_expr("1 + 2 * 3").unwrap(),
        bin(Bop::Add, num(1.0), bin(Bop::Mul, num(2.0), num(3.0)))
    );
    assert_eq!(
        parse_expr("1 * 2 + 3").unwrap(),
        bin(Bop::Add, bin(Bop::Mul, num(1.0), num(2.0)), num(3.0))
    );
}

#[test]
fn equal_precedence_associates_left() {
    assert_eq!(
        parse_expr("1 - 2 - 3").unwrap(),
        bin(Bop::Sub, bin(Bop::Sub, num(1.0), num(2.0)), num(3.0))
    );
    assert_eq!(
        parse_expr("8 / 4 / 2").unwrap(),
        bin(Bop::Div, bin(Bop::Div, num(8.0), num(4.0)), num(2.0))
    );
}

#[test]
fn comparisons_bind_looser_than_arithmetic() {
    assert_eq!(
        parse_expr("1 + 2 < 3 * 4").unwrap(),
        bin(
            Bop::Lt,
            bin(Bop::Add, num(1.0), num(2.0)),
            bin(Bop::Mul, num(3.0), num(4.0))
        )
    );
    assert_eq!(
        parse_expr("1 < 2 == 3 >= 4").unwrap(),
        bin(
            Bop::Equal,
            bin(Bop::Lt, num(1.0), num(2.0)),
            bin(Bop::Ge, num(3.0), num(4.0))
        )
    );
}

#[test]
fn unary_operators_nest_to_the_right() {
    assert_eq!(
        parse_expr("--1").unwrap(),
        Expr::Unary(
            Unary::Negate,
            Box::new(Expr::Unary(Unary::Negate, Box::new(num(1.0))))
        )
    );
    assert_eq!(
        parse_expr("!!true").unwrap(),
        Expr::Unary(
            Unary::Not,
            Box::new(Expr::Unary(Unary::Not, Box::new(Expr::Lit(Lit::Bool(true)))))
        )
    );
}

#[test]
fn unary_binds_tighter_than_binary() {
    assert_eq!(
        parse_expr("-1 + 2").unwrap(),
        bin(
            Bop::Add,
            Expr::Unary(Unary::Negate, Box::new(num(1.0))),
            num(2.0)
        )
    );
}

#[test]
fn literals_parse_to_their_values() {
    assert_eq!(parse_expr("nil").unwrap(), Expr::Lit(Lit::Nil));
    assert_eq!(parse_expr("false").unwrap(), Expr::Lit(Lit::Bool(false)));
    assert_eq!(
        parse_expr("\"hi\"").unwrap(),
        Expr::Lit(Lit::Str(b"hi".to_vec()))
    );
    assert_eq!(
        parse_expr("someName").unwrap(),
        Expr::Lit(Lit::Var(b"someName".to_vec()))
    );
}

#[test]
fn print_statement_wraps_its_expression() {
    assert_eq!(
        parse_stmt("print 1 + 2").unwrap(),
        Some(Stmt::Print(bin(Bop::Add, num(1.0), num(2.0))))
    );
}

#[test]
fn var_statement_binds_name_to_expression() {
    assert_eq!(
        parse_stmt("var x = 7").unwrap(),
        Some(Stmt::Assign {
            lhs: b"x".to_vec(),
            rhs: num(7.0)
        })
    );
}

#[test]
fn blocks_hold_semicolon_terminated_statements() {
    assert_eq!(
        parse_stmt("{ var x = 1; print x; }").unwrap(),
        Some(Stmt::Block(vec![
            Stmt::Assign {
                lhs: b"x".to_vec(),
                rhs: num(1.0)
            },
            Stmt::Print(Expr::Lit(Lit::Var(b"x".to_vec()))),
        ]))
    );
    assert_eq!(parse_stmt("{}").unwrap(), Some(Stmt::Block(vec![])));
}

#[test]
fn blocks_nest() {
    assert_eq!(
        parse_stmt("{ { print 1; }; }").unwrap(),
        Some(Stmt::Block(vec![Stmt::Block(vec![Stmt::Print(num(1.0))])]))
    );
}

#[test]
fn non_statement_tokens_give_no_statement() {
    assert_eq!(parse_stmt("1 + 2").unwrap(), None);
    assert_eq!(parse_stmt("").unwrap(), None);
}

#[test]
fn missing_operand_is_a_parse_error() {
    assert!(matches!(parse_expr("1 +"), Err(Error::UnexpectedEof)));
    assert!(matches!(
        parse_expr("1 + ;"),
        Err(Error::ExpectedExpression)
    ));
    assert!(matches!(parse_expr(";"), Err(Error::ExpectedExpression)));
}

#[test]
fn var_without_identifier_or_equals_is_a_parse_error() {
    assert!(matches!(
        parse_stmt("var 1 = 2"),
        Err(Error::ExpectedToken(Expected::Ident, T::Number(_)))
    ));
    assert!(matches!(
        parse_stmt("var x 2"),
        Err(Error::ExpectedToken(Expected::Equal, T::Number(_)))
    ));
    assert!(matches!(parse_stmt("var x"), Err(Error::UnexpectedEof)));
}

#[test]
fn block_without_semicolon_or_brace_is_a_parse_error() {
    assert!(matches!(
        parse_stmt("{ print 1 }"),
        Err(Error::ExpectedToken(Expected::Semicolon, T::RBrace))
    ));
    assert!(matches!(
        parse_stmt("{ print 1; 2"),
        Err(Error::ExpectedToken(Expected::RBrace, T::Number(_)))
    ));
    assert!(matches!(parse_stmt("{ print 1;"), Err(Error::UnexpectedEof)));
}

#[test]
fn operator_tokens_convert_to_operators() {
    let sp = rox::span::T {
        lo: rox::span::Loc { idx: 0, row: 1, col: 1 },
        hi: rox::span::Loc { idx: 1, row: 1, col: 2 },
    };
    assert_eq!(Bop::of_token(sp, &T::Plus).unwrap(), Bop::Add);
    assert_eq!(Bop::of_token(sp, &T::EqualEqual).unwrap(), Bop::Equal);
    assert_eq!(Bop::of_token(sp, &T::LessEqual).unwrap(), Bop::Le);
    assert!(matches!(
        Bop::of_token(sp, &T::Print),
        Err(rox::ast::Error::NotBop(_, T::Print))
    ));
}

#[test]
fn token_precedence_orders_the_operators() {
    assert_eq!(T::Star.precedence(), Some(4));
    assert_eq!(T::Slash.precedence(), Some(4));
    assert_eq!(T::Plus.precedence(), Some(3));
    assert_eq!(T::Minus.precedence(), Some(3));
    assert_eq!(T::Less.precedence(), Some(2));
    assert_eq!(T::GreaterEqual.precedence(), Some(2));
    assert_eq!(T::EqualEqual.precedence(), Some(1));
    assert_eq!(T::BangEqual.precedence(), Some(1));
    assert_eq!(T::Print.precedence(), None);
    assert_eq!(T::LParen.precedence(), None);
}
