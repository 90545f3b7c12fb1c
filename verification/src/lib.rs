//! The front end and evaluator of a small expression-oriented scripting
//! language: a lexer that turns source text into tokens with precise source
//! spans, a precedence-climbing parser that turns tokens into a statement
//! tree, and a tree-walking interpreter that evaluates that tree against a
//! stack of lexical scopes.
//!
//! Source text is handled as UTF-8 bytes throughout, and the language's
//! numbers are IEEE 754 doubles carried as their bit patterns, so that the
//! whole pipeline can be reasoned about over plain values.

use vstd::prelude::*;

pub mod ast;
pub mod bytes;
pub mod interpret;
pub mod lex;
pub mod lexer;
pub mod num;
pub mod parse;
pub mod span;
pub mod token;

verus! {

/// Any error the pipeline can stop on.
#[derive(Debug)]
pub enum Error {
    /// Lexing failed.
    Lex(lexer::Error),
    /// Parsing failed.
    Parse(parse::Error),
    /// The source text opens with no statement.
    NoStatement,
    /// Evaluation failed.
    Runtime(interpret::Error),
}

/// The mathematical view of a pipeline error.
pub enum ErrM {
    Lex(lexer::Error),
    Parse(parse::ErrM),
    NoStatement,
    Runtime(interpret::ErrM),
}

impl View for Error {
    type V = ErrM;

    open spec fn view(&self) -> ErrM {
        match self {
            Error::Lex(e) => ErrM::Lex(*e),
            Error::Parse(e) => ErrM::Parse(e@),
            Error::NoStatement => ErrM::NoStatement,
            Error::Runtime(e) => ErrM::Runtime(e@),
        }
    }
}

/// What running a source text produces: the lines its `print` statements
/// write, in order, or the error the pipeline stops on. The program is one
/// statement, evaluated in a single fresh global scope; tokens after that
/// statement are ignored.
pub open spec fn run_spec(src: Seq<u8>) -> Result<Seq<Seq<u8>>, ErrM> {
    match lexer::lex_spec(src, 0) {
        Err(e) => Err(ErrM::Lex(e)),
        Ok(pairs) => {
            let ts = lex::strip_spans(pairs);
            match parse::parse_stmt_s(ts, 0) {
                Err(e) => Err(ErrM::Parse(e)),
                Ok(None) => Err(ErrM::NoStatement),
                Ok(Some((st, q))) => {
                    let stepped = interpret::eval_stmt_s(
                        seq![Seq::<(Seq<u8>, interpret::ValueM)>::empty()],
                        Seq::empty(),
                        st,
                    );
                    match stepped.2 {
                        None => Ok(stepped.1),
                        Some(e) => Err(ErrM::Runtime(e)),
                    }
                },
            }
        },
    }
}

/// Run a source text through the whole pipeline: lex it, parse one
/// statement, and evaluate that statement in a single fresh global scope.
/// The result is the printed lines, in order.
pub fn run_source(source: &[u8]) -> (r: Result<Vec<Vec<u8>>, Error>)
    requires
        source@.len() < usize::MAX,
    ensures
        match run_spec(source@) {
            Ok(lines) => r matches Ok(v) && interpret::out_view(v@) == lines,
            Err(e) => r matches Err(re) && re@ == e,
        },
{
    let mut scanner = lex::Scanner::new(source);
    let toks = match scanner.scan() {
        Ok(t) => t,
        Err(e) => {
            return Err(Error::Lex(e));
        },
    };
    let mut parser = parse::Parser::new(toks.as_slice());
    let stmt = match parser.parse_stmt() {
        Ok(Some(st)) => st,
        Ok(None) => {
            return Err(Error::NoStatement);
        },
        Err(e) => {
            return Err(Error::Parse(e));
        },
    };
    let mut interp = interpret::Interpreter::new();
    interp.push_scope();
    proof {
        assert(interp.envs_v() =~= seq![Seq::<(Seq<u8>, interpret::ValueM)>::empty()]);
    }
    match interp.eval_stmt(&stmt) {
        Ok(()) => Ok(interp.into_output()),
        Err(e) => Err(Error::Runtime(e)),
    }
}

} // verus!
