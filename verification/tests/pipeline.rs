//! Tests of the whole pipeline: source text in, printed lines or one error
//! out.

use rox::interpret;
use rox::lexer;
use rox::parse;
use rox::run_source;
use rox::Error;

/// Run a source text and give the printed lines back as strings.
fn run(src: &str) -> Result<Vec<String>, Error> {
    run_source(src.as_bytes()).map(|lines| {
        lines
            .into_iter()
            .map(|l| String::from_utf8(l).unwrap())
            .collect()
    })
}

#[test]
fn a_program_prints_its_lines_in_order() {
    assert_eq!(
        run("{ var x = 1; { var x = 2; print x; }; print x; }").unwrap(),
        vec!["2".to_string(), "1".to_string()]
    );
}

#[test]
fn arithmetic_flows_from_text_to_output() {
    assert_eq!(run("print 1 + 2 * 3;").unwrap(), vec!["7".to_string()]);
    assert_eq!(run("print (0 - 0);").is_err(), true);  // no grouping in the grammar
    assert_eq!(run("print 10 - 2 - 3;").unwrap(), vec!["5".to_string()]);
}

#[test]
fn comments_and_whitespace_do_not_change_a_program() {
    assert_eq!(
        run("{ /* lead */ print 1 + 1; // trailing\n }").unwrap(),
        vec!["2".to_string()]
    );
}

#[test]
fn a_top_level_var_binds_in_the_global_scope() {
    assert_eq!(run("var x = 1").unwrap(), Vec::<String>::new());
}

#[test]
fn lexing_errors_surface() {
    assert!(matches!(
        run("print \"abc;"),
        Err(Error::Lex(lexer::Error::UnterminatedString(_)))
    ));
    assert!(matches!(
        run("print #;"),
        Err(Error::Lex(lexer::Error::UnexpectedChar(_, b'#')))
    ));
}

#[test]
fn parsing_errors_surface() {
    assert!(matches!(
        run("print ;"),
        Err(Error::Parse(parse::Error::ExpectedExpression))
    ));
    assert!(matches!(
        run("{ print 1 }"),
        Err(Error::Parse(parse::Error::ExpectedToken(
            parse::Expected::Semicolon,
            _
        )))
    ));
    assert!(matches!(run("print"), Err(Error::Parse(parse::Error::UnexpectedEof))));
}

#[test]
fn a_source_with_no_statement_is_rejected() {
    assert!(matches!(run("1 + 2"), Err(Error::NoStatement)));
    assert!(matches!(run(""), Err(Error::NoStatement)));
    assert!(matches!(run("// only a comment"), Err(Error::NoStatement)));
}

#[test]
fn runtime_errors_surface() {
    assert!(matches!(
        run("print y;"),
        Err(Error::Runtime(interpret::Error::UndefinedVariable(_)))
    ));
    assert!(matches!(
        run("print 1 + nil;"),
        Err(Error::Runtime(interpret::Error::TypeMismatch { .. }))
    ));
}

#[test]
fn tokens_after_the_first_statement_are_ignored() {
    assert_eq!(run("print 1; print 2;").unwrap(), vec!["1".to_string()]);
}
