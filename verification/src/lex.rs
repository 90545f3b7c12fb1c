//! A scanner that lexes a whole source text into a token vector.
//!
//! `Scanner` drives the lexer of `crate::lexer` over the full input and
//! drops the spans, for callers that only want the tokens.

use vstd::prelude::*;
use crate::lexer;
use crate::span;
use crate::token;

verus! {

/// The views of a vector of tokens.
pub open spec fn toks_view(v: Seq<token::T>) -> Seq<token::TokM> {
    v.map_values(|t: token::T| t@)
}

/// The tokens of a lexed pair sequence, without their spans.
pub open spec fn strip_spans(l: Seq<(span::T, token::TokM)>) -> Seq<token::TokM> {
    l.map_values(|p: (span::T, token::TokM)| p.1)
}

/// Lexes one source text from its start.
pub struct Scanner<'source> {
    lexer: lexer::T<'source>,
}

impl<'source> Scanner<'source> {
    /// The source bytes being scanned.
    pub closed spec fn src(&self) -> Seq<u8> {
        self.lexer.src()
    }

    /// A fresh scanner stands at the start of its source.
    pub closed spec fn wf(&self) -> bool {
        self.lexer.wf() && self.lexer.at() == 0
    }

    /// A scanner over `source`.
    pub fn new(source: &'source [u8]) -> (r: Scanner<'source>)
        requires
            source@.len() < usize::MAX,
        ensures
            r.wf(),
            r.src() == source@,
    {
        Scanner { lexer: lexer::T::new(source) }
    }

    /// Lex the whole source: its tokens in order, or the error that lexing
    /// stops on.
    pub fn scan(&mut self) -> (r: Result<Vec<token::T>, lexer::Error>)
        requires
            old(self).wf(),
        ensures
            match lexer::lex_spec(old(self).src(), 0) {
                Ok(l) => r matches Ok(v) && toks_view(v@) == strip_spans(l),
                Err(e) => r == Err::<Vec<token::T>, lexer::Error>(e),
            },
    {
        let ghost s = self.src();
        let mut pairs = match self.lexer.tokens() {
            Err(e) => {
                return Err(e);
            },
            Ok(pairs) => pairs,
        };
        let ghost full = pairs@;
        let mut out: Vec<token::T> = Vec::new();
        while pairs.len() > 0
            invariant
                lexer::lex_spec(s, 0) == Ok::<_, lexer::Error>(lexer::view_pairs(full)),
                out@.len() + pairs@.len() == full.len(),
                pairs@ == full.subrange(out@.len() as int, full.len() as int),
                forall|k: int| 0 <= k < out@.len() ==> out@[k] == full[k].1,
            decreases pairs@.len(),
        {
            let ghost out_old = out@;
            let p = pairs.remove(0);
            out.push(p.1);
            proof {
                assert(pairs@ =~= full.subrange(out@.len() as int, full.len() as int));
                assert(out@[out_old.len() as int] == full[out_old.len() as int].1);
            }
        }
        proof {
            assert(toks_view(out@) =~= strip_spans(lexer::view_pairs(full)));
        }
        Ok(out)
    }
}

} // verus!
