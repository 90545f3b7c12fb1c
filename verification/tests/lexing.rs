//! Tests of the lexer: token classification, spans, comments, and errors.

use rox::lex::Scanner;
use rox::lexer;
use rox::span;
use rox::token::T;

/// Lex a whole source text to tokens, panicking on a lexing error.
fn lex(src: &str) -> Vec<T> {
    let mut scanner = Scanner::new(src.as_bytes());
    scanner.scan().expect("lexing failed")
}

/// Lex a whole source text to `(span, token)` pairs.
fn lex_spanned(src: &str) -> Result<Vec<(span::T, T)>, lexer::Error> {
    let mut lx = lexer::T::new(src.as_bytes());
    lx.tokens()
}

#[test]
fn keywords_lex_as_keywords() {
    assert_eq!(
        lex("and class else false fun for if nil or print return super this true var while"),
        vec![
            T::And,
            T::Class,
            T::Else,
            T::False,
            T::Fun,
            T::For,
            T::If,
            T::Nil,
            T::Or,
            T::Print,
            T::Return,
            T::Super,
            T::This,
            T::True,
            T::Var,
            T::While,
        ]
    );
}

#[test]
fn near_keywords_lex_as_identifiers() {
    assert_eq!(
        lex("prints PRINT vars _var while1"),
        vec![
            T::Ident(b"prints".to_vec()),
            T::Ident(b"PRINT".to_vec()),
            T::Ident(b"vars".to_vec()),
            T::Ident(b"_var".to_vec()),
            T::Ident(b"while1".to_vec()),
        ]
    );
}

#[test]
fn operators_take_longest_match() {
    assert_eq!(
        lex("! != = == < <= > >= ==="),
        vec![
            T::Bang,
            T::BangEqual,
            T::Equal,
            T::EqualEqual,
            T::Less,
            T::LessEqual,
            T::Greater,
            T::GreaterEqual,
            T::EqualEqual,
            T::Equal,
        ]
    );
}

#[test]
fn punctuation_lexes_one_byte_each() {
    assert_eq!(
        // With a space between them: a bare `/*` would open a comment.
        lex("(){},.-+;/ *"),
        vec![
            T::LParen,
            T::RParen,
            T::LBrace,
            T::RBrace,
            T::Comma,
            T::Dot,
            T::Minus,
            T::Plus,
            T::Semicolon,
            T::Slash,
            T::Star,
        ]
    );
}

#[test]
fn numbers_lex_to_the_doubles_std_parses() {
    for text in ["0", "7", "42", "3.25", "0.5", "1.", ".5", "123456789.125"] {
        let toks = lex(text);
        assert_eq!(toks.len(), 1, "lexing {:?}", text);
        match &toks[0] {
            T::Number(bits) => {
                let expected: f64 = text.parse().unwrap();
                assert_eq!(*bits, expected.to_bits(), "lexing {:?}", text);
            }
            other => panic!("lexing {:?} gave {:?}", text, other),
        }
    }
}

#[test]
fn second_dot_starts_a_new_number() {
    // The policy under test: a number's extent stops at its second decimal
    // point, and a dot followed by a digit starts a new number.
    assert_eq!(
        lex("1.2.3"),
        vec![
            T::Number(1.2f64.to_bits()),
            T::Number(0.3f64.to_bits()),
        ]
    );
    // A dot not followed by a digit is the dot token.
    assert_eq!(
        lex("1.2."),
        vec![T::Number(1.2f64.to_bits()), T::Dot]
    );
}

#[test]
fn strings_keep_their_contents() {
    assert_eq!(
        lex("\"hello world\" \"\" \"1 + 2\""),
        vec![
            T::Str(b"hello world".to_vec()),
            T::Str(b"".to_vec()),
            T::Str(b"1 + 2".to_vec()),
        ]
    );
}

#[test]
fn strings_take_no_escapes_and_may_span_lines() {
    assert_eq!(
        lex("\"a\\n\" \"two\nlines\""),
        vec![
            T::Str(b"a\\n".to_vec()),
            T::Str(b"two\nlines".to_vec()),
        ]
    );
}

#[test]
fn comments_are_skipped() {
    assert_eq!(
        lex("print // the rest of this line\n1 /* a block */ + /* /* nested */ still skipped */ 2"),
        vec![
            T::Print,
            T::Number(1.0f64.to_bits()),
            T::Plus,
            T::Number(2.0f64.to_bits()),
        ]
    );
}

#[test]
fn unterminated_block_comment_consumes_to_eof() {
    assert_eq!(
        lex("1 /* never closed ... */ 2 /* nor this"),
        vec![T::Number(1.0f64.to_bits()), T::Number(2.0f64.to_bits())]
    );
}

#[test]
fn spans_carry_offsets_rows_and_columns() {
    let pairs = lex_spanned("var x\n = 10").unwrap();
    let spans: Vec<span::T> = pairs.iter().map(|p| p.0).collect();
    let loc = |idx: usize, row: usize, col: usize| span::Loc { idx, row, col };
    assert_eq!(spans[0], span::T { lo: loc(0, 1, 1), hi: loc(3, 1, 4) });  // var
    assert_eq!(spans[1], span::T { lo: loc(4, 1, 5), hi: loc(5, 1, 6) });  // x
    assert_eq!(spans[2], span::T { lo: loc(7, 2, 2), hi: loc(8, 2, 3) });  // =
    assert_eq!(spans[3], span::T { lo: loc(9, 2, 4), hi: loc(11, 2, 6) });  // 10
}

#[test]
fn multibyte_characters_advance_one_column() {
    // A two-byte character inside a string moves the offset by two bytes
    // but the column by one.
    let pairs = lex_spanned("\"\u{e9}\" x").unwrap();
    assert_eq!(pairs[0].1, T::Str("\u{e9}".as_bytes().to_vec()));
    assert_eq!(pairs[1].0.lo, span::Loc { idx: 5, row: 1, col: 5 });
}

#[test]
fn unterminated_string_error_spans_to_eof() {
    let src = "print \"abc;";
    let err = lex_spanned(src).unwrap_err();
    match err {
        lexer::Error::UnterminatedString(sp) => {
            assert_eq!(sp.lo.idx, 6);
            assert_eq!(sp.hi.idx, src.len());
        }
        other => panic!("expected an unterminated string error, got {:?}", other),
    }
}

#[test]
fn unexpected_character_is_reported_with_its_span() {
    let err = lex_spanned("print @").unwrap_err();
    match err {
        lexer::Error::UnexpectedChar(sp, b) => {
            assert_eq!(b, b'@');
            assert_eq!(sp.lo.idx, 6);
            assert_eq!(sp.hi.idx, 7);
        }
        other => panic!("expected an unexpected character error, got {:?}", other),
    }
}

#[test]
fn spans_tile_the_source_and_relex_to_the_same_tokens() {
    let src = "{ var x = 1; // set up\n  print /* show */ x <= 2.5; }";
    let pairs = lex_spanned(src).unwrap();
    // The spans run forwards, do not overlap, and stay within the input.
    let mut prev_hi = 0usize;
    for (sp, _) in &pairs {
        assert!(prev_hi <= sp.lo.idx);
        assert!(sp.lo.idx <= sp.hi.idx);
        assert!(sp.hi.idx <= src.len());
        prev_hi = sp.hi.idx;
    }
    // Re-lexing the concatenation of the spans' text gives the same tokens:
    // the gaps held nothing but whitespace and comments.
    let mut joined = Vec::new();
    for (sp, _) in &pairs {
        joined.extend_from_slice(&src.as_bytes()[sp.lo.idx..sp.hi.idx]);
        joined.push(b' ');
    }
    let mut again = lexer::T::new(&joined);
    let repairs = again.tokens().unwrap();
    let toks: Vec<&T> = pairs.iter().map(|p| &p.1).collect();
    let retoks: Vec<&T> = repairs.iter().map(|p| &p.1).collect();
    assert_eq!(toks, retoks);
}

#[test]
fn scanning_after_an_error_reports_the_error() {
    let mut scanner = Scanner::new(b"print \"open");
    assert!(matches!(
        scanner.scan(),
        Err(lexer::Error::UnterminatedString(_))
    ));
}
