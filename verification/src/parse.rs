//! The parser.
//!
//! A recursive-descent parser over a token slice, with precedence climbing
//! for binary operators. Each parsing method's contract says that it behaves
//! exactly like the spec-level parser defined here over the tokens' views,
//! so the tree it builds, the tokens it consumes and the error it stops on
//! are all pinned down.

use vstd::prelude::*;
use crate::ast;
use crate::token;

verus! {

broadcast use vstd::seq::axiom_seq_index_decreases, vstd::std_specs::vec::axiom_vec_decreases_to_view;

/// A syntactic literal.
#[derive(Clone, Debug, PartialEq, Eq)]
pub enum Lit {
    /// A reference to a variable, by name.
    Var(Vec<u8>),
    /// A number literal, as the bit pattern of an IEEE 754 double.
    Number(u64),
    /// A string literal's contents.
    Str(Vec<u8>),
    Bool(bool),
    Nil,
}

/// A unary operator.
#[derive(Copy, Clone, Debug, PartialEq, Eq, Structural)]
pub enum Unary {
    /// Arithmetic negation of a number.
    Negate,
    /// Logical negation of a boolean.
    Not,
}

/// An expression tree. Each node owns its children outright.
#[derive(Debug, PartialEq, Eq)]
pub enum Expr {
    Lit(Lit),
    Unary(Unary, Box<Expr>),
    Binary(ast::Bop, Box<Expr>, Box<Expr>),
}

/// A statement tree. A `Block` introduces one lexical scope around its
/// ordered statements; `Assign` both declares and rebinds.
#[derive(Debug, PartialEq, Eq)]
pub enum Stmt {
    /// Evaluate the expression and print its rendering.
    Print(Expr),
    /// Evaluate the statements in order inside a fresh scope.
    Block(Vec<Stmt>),
    /// Evaluate `rhs` and bind it to `lhs` in the innermost scope.
    Assign { lhs: Vec<u8>, rhs: Expr },
}

/// The mathematical view of a literal.
pub enum LitM {
    Var(Seq<u8>),
    Number(u64),
    Str(Seq<u8>),
    Bool(bool),
    Nil,
}

/// The mathematical view of an expression tree.
pub enum ExprM {
    Lit(LitM),
    Unary(Unary, Box<ExprM>),
    Binary(ast::Bop, Box<ExprM>, Box<ExprM>),
}

/// The mathematical view of a statement tree.
pub enum StmtM {
    Print(ExprM),
    Block(Seq<StmtM>),
    Assign { lhs: Seq<u8>, rhs: ExprM },
}

impl View for Lit {
    type V = LitM;

    open spec fn view(&self) -> LitM {
        match self {
            Lit::Var(x) => LitM::Var(x@),
            Lit::Number(b) => LitM::Number(*b),
            Lit::Str(x) => LitM::Str(x@),
            Lit::Bool(b) => LitM::Bool(*b),
            Lit::Nil => LitM::Nil,
        }
    }
}

/// The view of an expression tree.
pub open spec fn expr_view(e: Expr) -> ExprM
    decreases e,
{
    match e {
        Expr::Lit(l) => ExprM::Lit(l@),
        Expr::Unary(op, e1) => ExprM::Unary(op, Box::new(expr_view(*e1))),
        Expr::Binary(op, l, r) => ExprM::Binary(op, Box::new(expr_view(*l)), Box::new(expr_view(*r))),
    }
}

/// The view of a statement tree.
pub open spec fn stmt_view(s: Stmt) -> StmtM
    decreases s, 0int, 0int,
{
    match s {
        Stmt::Print(e) => StmtM::Print(expr_view(e)),
        Stmt::Block(v) => StmtM::Block(stmts_view_from(v@, 0)),
        Stmt::Assign { lhs, rhs } => StmtM::Assign { lhs: lhs@, rhs: expr_view(rhs) },
    }
}

/// The views of the statements of `sq` from index `i` on.
pub open spec fn stmts_view_from(sq: Seq<Stmt>, i: int) -> Seq<StmtM>
    decreases sq, 1int, sq.len() - i,
{
    if 0 <= i < sq.len() {
        seq![stmt_view(sq[i])] + stmts_view_from(sq, i + 1)
    } else {
        Seq::empty()
    }
}

/// The views of a statement sequence.
pub open spec fn stmts_view(sq: Seq<Stmt>) -> Seq<StmtM> {
    stmts_view_from(sq, 0)
}

/// `stmts_view_from` is, element for element, the view of each statement.
pub proof fn lemma_stmts_view_from(sq: Seq<Stmt>, i: int)
    requires
        0 <= i <= sq.len(),
    ensures
        stmts_view_from(sq, i).len() == sq.len() - i,
        forall|k: int|
            0 <= k < sq.len() - i ==> #[trigger] stmts_view_from(sq, i)[k] == stmt_view(sq[i + k]),
    decreases sq.len() - i,
{
    if i < sq.len() {
        lemma_stmts_view_from(sq, i + 1);
    }
}

/// Appending a statement appends its view.
pub proof fn lemma_stmts_view_push(sq: Seq<Stmt>, s: Stmt)
    ensures
        stmts_view(sq.push(s)) == stmts_view(sq).push(stmt_view(s)),
{
    lemma_stmts_view_from(sq, 0);
    lemma_stmts_view_from(sq.push(s), 0);
    assert(stmts_view(sq.push(s)) =~= stmts_view(sq).push(stmt_view(s)));
}

impl View for Expr {
    type V = ExprM;

    open spec fn view(&self) -> ExprM {
        expr_view(*self)
    }
}

impl View for Stmt {
    type V = StmtM;

    open spec fn view(&self) -> StmtM {
        stmt_view(*self)
    }
}

/// What the parser expected where it found something else.
#[derive(Copy, Clone, Debug, PartialEq, Eq, Structural)]
pub enum Expected {
    /// An identifier, after `var`.
    Ident,
    /// `=`, after the variable being declared.
    Equal,
    /// `;`, after each statement of a block.
    Semicolon,
    /// `}`, closing a block.
    RBrace,
}

/// A parse error. The parser fails fast: the first error aborts parsing.
#[derive(Clone, Debug)]
pub enum Error {
    /// A token that cannot start an expression stood where an expression
    /// was required.
    ExpectedExpression,
    /// The input ended where a token was required.
    UnexpectedEof,
    /// The given token stood where the expected one was required.
    ExpectedToken(Expected, token::T),
}

/// The mathematical view of a parse error.
pub enum ErrM {
    ExpectedExpression,
    UnexpectedEof,
    ExpectedToken(Expected, token::TokM),
}

impl View for Error {
    type V = ErrM;

    open spec fn view(&self) -> ErrM {
        match self {
            Error::ExpectedExpression => ErrM::ExpectedExpression,
            Error::UnexpectedEof => ErrM::UnexpectedEof,
            Error::ExpectedToken(w, t) => ErrM::ExpectedToken(*w, t@),
        }
    }
}

/// The literal denoted by the token at offset `p`, if any.
pub open spec fn parse_literal_s(ts: Seq<token::TokM>, p: int) -> Option<LitM> {
    if 0 <= p < ts.len() {
        match ts[p] {
            token::TokM::Ident(x) => Some(LitM::Var(x)),
            token::TokM::Number(b) => Some(LitM::Number(b)),
            token::TokM::Str(x) => Some(LitM::Str(x)),
            token::TokM::True => Some(LitM::Bool(true)),
            token::TokM::False => Some(LitM::Bool(false)),
            token::TokM::Nil => Some(LitM::Nil),
            _ => None,
        }
    } else {
        None
    }
}

/// Parse a unary expression at offset `p`: a run of leading `!` and `-`
/// operators applied to a literal. On success, the expression and the offset
/// just past it.
pub open spec fn parse_unary_s(ts: Seq<token::TokM>, p: int) -> Result<(ExprM, int), ErrM>
    decreases ts.len() - p,
{
    if 0 <= p < ts.len() && (ts[p] is Bang || ts[p] is Minus) {
        let op = if ts[p] is Bang {
            Unary::Not
        } else {
            Unary::Negate
        };
        match parse_unary_s(ts, p + 1) {
            Ok((e, q)) => Ok((ExprM::Unary(op, Box::new(e)), q)),
            Err(e) => Err(e),
        }
    } else {
        match parse_literal_s(ts, p) {
            Some(l) => Ok((ExprM::Lit(l), p + 1)),
            None => Err(
                if p >= ts.len() {
                    ErrM::UnexpectedEof
                } else {
                    ErrM::ExpectedExpression
                },
            ),
        }
    }
}

/// Parse a binary expression at offset `p`, consuming every infix operator
/// of doubled precedence at least `min`: precedence climbing.
pub open spec fn parse_binary_s(ts: Seq<token::TokM>, p: int, min: u8) -> Result<
    (ExprM, int),
    ErrM,
>
    decreases ts.len() - p, 1int,
{
    match parse_unary_s(ts, p) {
        Err(e) => Err(e),
        Ok((e0, q)) => {
            if p < q <= ts.len() {
                parse_binloop_s(ts, e0, q, min)
            } else {
                // A unary expression always ends past its start, so this is
                // never reached; it only keeps the recursion visibly bounded.
                Err(ErrM::ExpectedExpression)
            }
        },
    }
}

/// The loop of precedence climbing: with `acc` parsed and the cursor at
/// offset `p`, repeatedly take an operator of doubled precedence at least
/// `min` and a right operand parsed at the next higher minimum, building a
/// left-leaning tree.
pub open spec fn parse_binloop_s(ts: Seq<token::TokM>, acc: ExprM, p: int, min: u8) -> Result<
    (ExprM, int),
    ErrM,
>
    decreases ts.len() - p, 0int,
{
    if 0 <= p < ts.len() && (prec_at(ts, p) matches Some(pow) && 2 * pow >= min) {
        let pow = prec_at(ts, p)->Some_0;
        match parse_binary_s(ts, p + 1, (2 * pow + 1) as u8) {
            Err(e) => Err(e),
            Ok((rhs, r)) => {
                if p < r <= ts.len() {
                    match ast::bop_of_token(ts[p]) {
                        Some(op) => parse_binloop_s(
                            ts,
                            ExprM::Binary(op, Box::new(acc), Box::new(rhs)),
                            r,
                            min,
                        ),
                        // Every token with a precedence denotes an operator,
                        // so this is never reached.
                        None => Err(ErrM::ExpectedExpression),
                    }
                } else {
                    // A binary expression always ends past its start; never
                    // reached.
                    Err(ErrM::ExpectedExpression)
                }
            },
        }
    } else {
        Ok((acc, p))
    }
}

/// The precedence of the token at offset `p`, if it is an operator.
pub open spec fn prec_at(ts: Seq<token::TokM>, p: int) -> Option<u8> {
    if 0 <= p < ts.len() {
        token::prec_of(ts[p])
    } else {
        None
    }
}

/// Parse one statement at offset `p`: a `print` statement, a braced block,
/// or a `var` declaration. `Ok(None)` means no statement starts here, which
/// the block loop uses to find the block's end.
pub open spec fn parse_stmt_s(ts: Seq<token::TokM>, p: int) -> Result<
    Option<(StmtM, int)>,
    ErrM,
>
    decreases ts.len() - p, 0int,
{
    if p < 0 || p >= ts.len() {
        Ok(None)
    } else {
        match ts[p] {
            token::TokM::Print => match parse_binary_s(ts, p + 1, 0) {
                Ok((e, q)) => Ok(Some((StmtM::Print(e), q))),
                Err(e) => Err(e),
            },
            token::TokM::LBrace => parse_block_s(ts, Seq::empty(), p + 1),
            token::TokM::Var => {
                if p + 1 >= ts.len() {
                    Err(ErrM::UnexpectedEof)
                } else {
                    match ts[p + 1] {
                        token::TokM::Ident(x) => {
                            if p + 2 >= ts.len() {
                                Err(ErrM::UnexpectedEof)
                            } else if !(ts[p + 2] is Equal) {
                                Err(ErrM::ExpectedToken(Expected::Equal, ts[p + 2]))
                            } else {
                                match parse_binary_s(ts, p + 3, 0) {
                                    Ok((e, q)) => Ok(
                                        Some((StmtM::Assign { lhs: x, rhs: e }, q)),
                                    ),
                                    Err(e) => Err(e),
                                }
                            }
                        },
                        t => Err(ErrM::ExpectedToken(Expected::Ident, t)),
                    }
                }
            },
            _ => Ok(None),
        }
    }
}

/// The loop of block parsing: with the statements `acc` already parsed and
/// the cursor at offset `p`, parse statements each followed by `;` until no
/// statement starts, then require the closing `}`.
pub open spec fn parse_block_s(ts: Seq<token::TokM>, acc: Seq<StmtM>, p: int) -> Result<
    Option<(StmtM, int)>,
    ErrM,
>
    decreases ts.len() - p, 1int,
{
    if p < 0 {
        // The block loop is always entered in bounds; never reached.
        Ok(None)
    } else {
        match parse_stmt_s(ts, p) {
            Err(e) => Err(e),
            Ok(None) => {
                if p < ts.len() && ts[p] is RBrace {
                    Ok(Some((StmtM::Block(acc), p + 1)))
                } else if p >= ts.len() {
                    Err(ErrM::UnexpectedEof)
                } else {
                    Err(ErrM::ExpectedToken(Expected::RBrace, ts[p]))
                }
            },
            Ok(Some((st, q))) => {
                if q >= ts.len() {
                    Err(ErrM::UnexpectedEof)
                } else if !(ts[q] is Semicolon) {
                    Err(ErrM::ExpectedToken(Expected::Semicolon, ts[q]))
                } else if p < q {
                    parse_block_s(ts, acc.push(st), q + 1)
                } else {
                    // A parsed statement always ends past its start; never
                    // reached.
                    Err(ErrM::ExpectedExpression)
                }
            },
        }
    }
}

/// The token a literal was parsed from.
pub open spec fn lit_token(l: LitM) -> token::TokM {
    match l {
        LitM::Var(x) => token::TokM::Ident(x),
        LitM::Number(b) => token::TokM::Number(b),
        LitM::Str(x) => token::TokM::Str(x),
        LitM::Bool(b) => if b {
            token::TokM::True
        } else {
            token::TokM::False
        },
        LitM::Nil => token::TokM::Nil,
    }
}

/// The token a unary operator was parsed from.
pub open spec fn unary_token(u: Unary) -> token::TokM {
    match u {
        Unary::Not => token::TokM::Bang,
        Unary::Negate => token::TokM::Minus,
    }
}

/// The token a binary operator was parsed from.
pub open spec fn bop_token(b: ast::Bop) -> token::TokM {
    match b {
        ast::Bop::Gt => token::TokM::Greater,
        ast::Bop::Ge => token::TokM::GreaterEqual,
        ast::Bop::Le => token::TokM::LessEqual,
        ast::Bop::Lt => token::TokM::Less,
        ast::Bop::NotEqual => token::TokM::BangEqual,
        ast::Bop::Equal => token::TokM::EqualEqual,
        ast::Bop::Add => token::TokM::Plus,
        ast::Bop::Sub => token::TokM::Minus,
        ast::Bop::Mul => token::TokM::Star,
        ast::Bop::Div => token::TokM::Slash,
    }
}

/// The fringe of an expression: the tokens it was parsed from, in source
/// order.
pub open spec fn expr_fringe(e: ExprM) -> Seq<token::TokM>
    decreases e,
{
    match e {
        ExprM::Lit(l) => seq![lit_token(l)],
        ExprM::Unary(op, e1) => seq![unary_token(op)] + expr_fringe(*e1),
        ExprM::Binary(op, l, r) => expr_fringe(*l) + seq![bop_token(op)] + expr_fringe(*r),
    }
}

/// Twice the precedence of an expression's top operator; a literal or a
/// unary expression binds tighter than any operator.
pub open spec fn top_prec2(e: ExprM) -> int {
    match e {
        ExprM::Binary(op, _, _) => 2 * ast::bop_prec(op),
        _ => 1000,
    }
}

/// The tree respects precedence climbing at minimum `min`: every binary
/// node carries an operator of doubled precedence at least `min`, its left
/// child respects the node's own doubled precedence (so operators of equal
/// precedence associate to the left), and its right child exceeds it (so
/// tighter operators nest below looser ones, never the other way around).
pub open spec fn prec_ok(e: ExprM, min: int) -> bool
    decreases e,
{
    match e {
        ExprM::Lit(_) => true,
        ExprM::Unary(_, e1) => prec_ok(*e1, 1000),
        ExprM::Binary(op, l, r) => {
            &&& 2 * ast::bop_prec(op) >= min
            &&& prec_ok(*l, 2 * ast::bop_prec(op))
            &&& prec_ok(*r, 2 * ast::bop_prec(op) + 1)
        },
    }
}

/// A parsed unary expression covers exactly the tokens it consumed and has
/// no binary node at its top.
pub proof fn lemma_parse_unary_fringe(ts: Seq<token::TokM>, p: int)
    requires
        0 <= p <= ts.len(),
    ensures
        match parse_unary_s(ts, p) {
            Ok((e, q)) => {
                &&& p < q <= ts.len()
                &&& expr_fringe(e) == ts.subrange(p, q)
                &&& !(e is Binary)
                &&& prec_ok(e, 1000)
            },
            Err(_) => true,
        },
    decreases ts.len() - p,
{
    lemma_parse_unary_progress(ts, p);
    if 0 <= p < ts.len() && (ts[p] is Bang || ts[p] is Minus) {
        lemma_parse_unary_fringe(ts, p + 1);
        if let Ok((e1, q)) = parse_unary_s(ts, p + 1) {
            let op = if ts[p] is Bang {
                Unary::Not
            } else {
                Unary::Negate
            };
            assert(unary_token(op) == ts[p]);
            assert(expr_fringe(ExprM::Unary(op, Box::new(e1))) =~= ts.subrange(p, q));
        }
    } else {
        if let Some(l) = parse_literal_s(ts, p) {
            assert(lit_token(l) == ts[p]);
            assert(expr_fringe(ExprM::Lit(l)) =~= ts.subrange(p, p + 1));
        }
    }
}

/// Precedence climbing is correct: a parsed binary expression covers
/// exactly the tokens it consumed, the tree it builds respects precedence
/// and left association (`prec_ok`), it is as tight as its own top operator
/// allows, and parsing stopped only where no operator of admissible
/// precedence follows.
pub proof fn lemma_parse_binary_fringe(ts: Seq<token::TokM>, p: int, min: u8)
    requires
        0 <= p <= ts.len(),
    ensures
        match parse_binary_s(ts, p, min) {
            Ok((e, q)) => {
                &&& p < q <= ts.len()
                &&& expr_fringe(e) == ts.subrange(p, q)
                &&& prec_ok(e, min as int)
                &&& prec_ok(e, top_prec2(e))
                &&& (match prec_at(ts, q) {
                    Some(z) => 2 * z < min,
                    None => true,
                })
            },
            Err(_) => true,
        },
    decreases ts.len() - p, 1int,
{
    lemma_parse_unary_fringe(ts, p);
    if let Ok((e0, q)) = parse_unary_s(ts, p) {
        if p < q <= ts.len() {
            lemma_parse_binloop_fringe(ts, e0, p, q, min);
        }
    }
}

/// As `lemma_parse_binary_fringe`, for the climbing loop: `acc` covers
/// `[lo, p)` and is as tight as its top operator allows, and no operator
/// looser than `acc`'s top stands at `p`.
pub proof fn lemma_parse_binloop_fringe(
    ts: Seq<token::TokM>,
    acc: ExprM,
    lo: int,
    p: int,
    min: u8,
)
    requires
        0 <= lo <= p <= ts.len(),
        expr_fringe(acc) == ts.subrange(lo, p),
        prec_ok(acc, top_prec2(acc)),
        min as int <= top_prec2(acc),
        match prec_at(ts, p) {
            Some(z) => 2 * z <= top_prec2(acc),
            None => true,
        },
    ensures
        match parse_binloop_s(ts, acc, p, min) {
            Ok((e, q)) => {
                &&& p <= q <= ts.len()
                &&& expr_fringe(e) == ts.subrange(lo, q)
                &&& prec_ok(e, min as int)
                &&& prec_ok(e, top_prec2(e))
                &&& (match prec_at(ts, q) {
                    Some(z) => 2 * z < min,
                    None => true,
                })
            },
            Err(_) => true,
        },
    decreases ts.len() - p, 0int,
{
    if 0 <= p < ts.len() && (prec_at(ts, p) matches Some(pow) && 2 * pow >= min) {
        let pow = prec_at(ts, p)->Some_0;
        assert(pow <= 4);
        lemma_parse_binary_fringe(ts, p + 1, (2 * pow + 1) as u8);
        if let Ok((rhs, r)) = parse_binary_s(ts, p + 1, (2 * pow + 1) as u8) {
            if p < r <= ts.len() {
                if let Some(op) = ast::bop_of_token(ts[p]) {
                    let acc2 = ExprM::Binary(op, Box::new(acc), Box::new(rhs));
                    assert(bop_token(op) == ts[p]);
                    assert(2 * ast::bop_prec(op) == 2 * pow);
                    assert(expr_fringe(acc2) =~= ts.subrange(lo, r));
                    assert(prec_ok(acc, 2 * pow));
                    assert(prec_ok(acc2, top_prec2(acc2)));
                    lemma_parse_binloop_fringe(ts, acc2, lo, r, min);
                }
            }
        }
    } else {
        assert(prec_ok(acc, min as int));
    }
}

/// A parsed unary expression ends past where it starts, within the tokens.
pub proof fn lemma_parse_unary_progress(ts: Seq<token::TokM>, p: int)
    requires
        0 <= p <= ts.len(),
    ensures
        match parse_unary_s(ts, p) {
            Ok((e, q)) => p < q <= ts.len(),
            Err(e) => true,
        },
    decreases ts.len() - p,
{
    if p < ts.len() && (ts[p] is Bang || ts[p] is Minus) {
        lemma_parse_unary_progress(ts, p + 1);
    }
}

/// A parsed binary expression ends past where it starts, within the tokens.
pub proof fn lemma_parse_binary_progress(ts: Seq<token::TokM>, p: int, min: u8)
    requires
        0 <= p <= ts.len(),
    ensures
        match parse_binary_s(ts, p, min) {
            Ok((e, q)) => p < q <= ts.len(),
            Err(e) => true,
        },
    decreases ts.len() - p, 1int,
{
    lemma_parse_unary_progress(ts, p);
    if let Ok((e0, q)) = parse_unary_s(ts, p) {
        lemma_parse_binloop_progress(ts, e0, q, min);
    }
}

/// The precedence-climbing loop never moves backwards and stays within the
/// tokens.
pub proof fn lemma_parse_binloop_progress(ts: Seq<token::TokM>, acc: ExprM, p: int, min: u8)
    requires
        0 <= p <= ts.len(),
    ensures
        match parse_binloop_s(ts, acc, p, min) {
            Ok((e, q)) => p <= q <= ts.len(),
            Err(e) => true,
        },
    decreases ts.len() - p, 0int,
{
    if 0 <= p < ts.len() && (prec_at(ts, p) matches Some(pow) && 2 * pow >= min) {
        let pow = prec_at(ts, p)->Some_0;
        lemma_parse_binary_progress(ts, p + 1, (2 * pow + 1) as u8);
        if let Ok((rhs, r)) = parse_binary_s(ts, p + 1, (2 * pow + 1) as u8) {
            if p < r <= ts.len() {
                if let Some(op) = ast::bop_of_token(ts[p]) {
                    lemma_parse_binloop_progress(
                        ts,
                        ExprM::Binary(op, Box::new(acc), Box::new(rhs)),
                        r,
                        min,
                    );
                }
            }
        }
    }
}

/// A parsed statement ends past where it starts, within the tokens.
pub proof fn lemma_parse_stmt_progress(ts: Seq<token::TokM>, p: int)
    requires
        0 <= p <= ts.len(),
    ensures
        match parse_stmt_s(ts, p) {
            Ok(Some((st, q))) => p < q <= ts.len(),
            Ok(None) => true,
            Err(e) => true,
        },
    decreases ts.len() - p, 0int,
{
    if 0 <= p < ts.len() {
        match ts[p] {
            token::TokM::Print => {
                lemma_parse_binary_progress(ts, p + 1, 0);
            },
            token::TokM::LBrace => {
                lemma_parse_block_progress(ts, Seq::empty(), p + 1);
            },
            token::TokM::Var => {
                if p + 3 <= ts.len() {
                    lemma_parse_binary_progress(ts, p + 3, 0);
                }
            },
            _ => (),
        }
    }
}

/// The block loop never moves backwards and stays within the tokens.
pub proof fn lemma_parse_block_progress(ts: Seq<token::TokM>, acc: Seq<StmtM>, p: int)
    requires
        0 <= p <= ts.len(),
    ensures
        match parse_block_s(ts, acc, p) {
            Ok(Some((st, q))) => p < q <= ts.len(),
            Ok(None) => true,
            Err(e) => true,
        },
    decreases ts.len() - p, 1int,
{
    lemma_parse_stmt_progress(ts, p);
    match parse_stmt_s(ts, p) {
        Ok(Some((st, q))) => {
            if q < ts.len() && ts[q] is Semicolon && p < q {
                lemma_parse_block_progress(ts, acc.push(st), q + 1);
            }
        },
        _ => (),
    }
}


/// The parser: a cursor over a token slice.
pub struct Parser<'t> {
    tokens: &'t [token::T],
    pos: usize,
}

impl<'t> Parser<'t> {
    /// The views of the tokens being parsed.
    pub closed spec fn toks(&self) -> Seq<token::TokM> {
        crate::lex::toks_view(self.tokens@)
    }

    /// The cursor's offset into the tokens.
    pub closed spec fn at(&self) -> int {
        self.pos as int
    }

    /// The cursor is in bounds.
    pub closed spec fn wf(&self) -> bool {
        self.pos <= self.tokens@.len()
    }

    /// A parser standing at the start of `tokens`.
    pub fn new(tokens: &'t [token::T]) -> (r: Parser<'t>)
        ensures
            r.wf(),
            r.toks() == crate::lex::toks_view(tokens@),
            r.at() == 0,
    {
        Parser { tokens, pos: 0 }
    }

    /// Parse a literal, consuming one token, or consume nothing when the
    /// next token is no literal.
    pub fn parse_literal(&mut self) -> (r: Option<Lit>)
        requires
            old(self).wf(),
        ensures
            final(self).wf(),
            final(self).toks() == old(self).toks(),
            match parse_literal_s(old(self).toks(), old(self).at()) {
                Some(l) => {
                    &&& r matches Some(lit)
                    &&& lit@ == l
                    &&& final(self).at() == old(self).at() + 1
                },
                None => r is None && final(self).at() == old(self).at(),
            },
    {
        let lit = if self.pos < self.tokens.len() {
            match &self.tokens[self.pos] {
                token::T::Ident(x) => Some(Lit::Var(x.clone())),
                token::T::Number(b) => Some(Lit::Number(*b)),
                token::T::Str(x) => Some(Lit::Str(x.clone())),
                token::T::True => Some(Lit::Bool(true)),
                token::T::False => Some(Lit::Bool(false)),
                token::T::Nil => Some(Lit::Nil),
                _ => None,
            }
        } else {
            None
        };
        match lit {
            Some(l) => {
                self.pos = self.pos + 1;
                Some(l)
            },
            None => None,
        }
    }

    /// Parse a unary expression: a run of leading `!` and `-` operators
    /// applied to a literal.
    pub fn parse_unary(&mut self) -> (r: Result<Expr, Error>)
        requires
            old(self).wf(),
        ensures
            final(self).wf(),
            final(self).toks() == old(self).toks(),
            match parse_unary_s(old(self).toks(), old(self).at()) {
                Ok((e, q)) => {
                    &&& r matches Ok(expr)
                    &&& expr@ == e
                    &&& final(self).at() == q
                },
                Err(e) => r matches Err(err) && err@ == e,
            },
        decreases old(self).toks().len() - old(self).at(),
    {
        let op = if self.pos < self.tokens.len() {
            match &self.tokens[self.pos] {
                token::T::Bang => Some(Unary::Not),
                token::T::Minus => Some(Unary::Negate),
                _ => None,
            }
        } else {
            None
        };
        match op {
            Some(op) => {
                self.pos = self.pos + 1;
                match self.parse_unary() {
                    Ok(inner) => Ok(Expr::Unary(op, Box::new(inner))),
                    Err(e) => Err(e),
                }
            },
            None => match self.parse_literal() {
                Some(l) => Ok(Expr::Lit(l)),
                None => Err(
                    if self.pos < self.tokens.len() {
                        Error::ExpectedExpression
                    } else {
                        Error::UnexpectedEof
                    },
                ),
            },
        }
    }

    /// Parse a binary expression by precedence climbing, consuming every
    /// infix operator of doubled precedence at least `min`.
    pub fn parse_binary(&mut self, min: u8) -> (r: Result<Expr, Error>)
        requires
            old(self).wf(),
        ensures
            final(self).wf(),
            final(self).toks() == old(self).toks(),
            match parse_binary_s(old(self).toks(), old(self).at(), min) {
                Ok((e, q)) => {
                    &&& r matches Ok(expr)
                    &&& expr@ == e
                    &&& final(self).at() == q
                },
                Err(e) => r matches Err(err) && err@ == e,
            },
        decreases old(self).toks().len() - old(self).at(),
    {
        let ghost ts = self.toks();
        let ghost p0 = self.at();
        let mut expr = match self.parse_unary() {
            Ok(e) => e,
            Err(e) => {
                return Err(e);
            },
        };
        proof {
            lemma_parse_unary_progress(ts, p0);
        }
        loop
            invariant
                self.wf(),
                self.toks() == ts,
                ts == old(self).toks(),
                p0 == old(self).at(),
                0 <= p0 < self.at() <= ts.len(),
                parse_binloop_s(ts, expr@, self.at(), min) == parse_binary_s(ts, p0, min),
            ensures
                self.wf(),
                self.toks() == ts,
                parse_binary_s(ts, p0, min) == Ok::<(ExprM, int), ErrM>((expr@, self.at())),
            decreases ts.len() - self.at(),
        {
            let pow = if self.pos < self.tokens.len() {
                self.tokens[self.pos].precedence()
            } else {
                None
            };
            let pow = match pow {
                Some(pw) => pw,
                None => { break },
            };
            if pow * 2 < min {
                break ;
            }
            let op = match &self.tokens[self.pos] {
                token::T::Greater => ast::Bop::Gt,
                token::T::GreaterEqual => ast::Bop::Ge,
                token::T::LessEqual => ast::Bop::Le,
                token::T::Less => ast::Bop::Lt,
                token::T::BangEqual => ast::Bop::NotEqual,
                token::T::EqualEqual => ast::Bop::Equal,
                token::T::Plus => ast::Bop::Add,
                token::T::Minus => ast::Bop::Sub,
                token::T::Star => ast::Bop::Mul,
                token::T::Slash => ast::Bop::Div,
                _ => vstd::pervasive::unreached(),
            };
            self.pos = self.pos + 1;
            proof {
                lemma_parse_binary_progress(ts, self.at(), (2 * pow + 1) as u8);
            }
            let rhs = match self.parse_binary(pow * 2 + 1) {
                Ok(e) => e,
                Err(e) => {
                    return Err(e);
                },
            };
            expr = Expr::Binary(op, Box::new(expr), Box::new(rhs));
        }
        Ok(expr)
    }

    /// Parse an expression: a binary expression with no minimum precedence.
    pub fn parse_expr(&mut self) -> (r: Result<Expr, Error>)
        requires
            old(self).wf(),
        ensures
            final(self).wf(),
            final(self).toks() == old(self).toks(),
            match parse_binary_s(old(self).toks(), old(self).at(), 0) {
                Ok((e, q)) => {
                    &&& r matches Ok(expr)
                    &&& expr@ == e
                    &&& final(self).at() == q
                },
                Err(e) => r matches Err(err) && err@ == e,
            },
    {
        self.parse_binary(0)
    }

    /// Parse one statement: a `print` statement, a braced block, or a `var`
    /// declaration. `Ok(None)` means no statement starts here and nothing
    /// was consumed.
    pub fn parse_stmt(&mut self) -> (r: Result<Option<Stmt>, Error>)
        requires
            old(self).wf(),
        ensures
            final(self).wf(),
            final(self).toks() == old(self).toks(),
            match parse_stmt_s(old(self).toks(), old(self).at()) {
                Ok(Some((st, q))) => {
                    &&& r matches Ok(Some(stmt))
                    &&& stmt@ == st
                    &&& final(self).at() == q
                },
                Ok(None) => r matches Ok(o) && o is None && final(self).at() == old(self).at(),
                Err(e) => r matches Err(err) && err@ == e,
            },
        decreases old(self).toks().len() - old(self).at(),
    {
        let ghost ts = self.toks();
        let ghost p0 = self.at();
        if self.pos >= self.tokens.len() {
            return Ok(None);
        }
        match &self.tokens[self.pos] {
            token::T::Print => {
                self.pos = self.pos + 1;
                match self.parse_expr() {
                    Ok(e) => Ok(Some(Stmt::Print(e))),
                    Err(e) => Err(e),
                }
            },
            token::T::LBrace => {
                self.pos = self.pos + 1;
                let mut stmts: Vec<Stmt> = Vec::new();
                loop
                    invariant_except_break
                        parse_block_s(ts, stmts_view(stmts@), self.at()) == parse_stmt_s(ts, p0),
                    invariant
                        self.wf(),
                        self.toks() == ts,
                        ts == old(self).toks(),
                        p0 == old(self).at(),
                        0 <= p0 < self.at() <= ts.len(),
                    ensures
                        self.wf(),
                        self.toks() == ts,
                        parse_stmt_s(ts, p0) == Ok::<Option<(StmtM, int)>, ErrM>(
                            Some((StmtM::Block(stmts_view(stmts@)), self.at())),
                        ),
                    decreases ts.len() - self.at(),
                {
                    let ghost at0 = self.at();
                    proof {
                        lemma_parse_stmt_progress(ts, at0);
                    }
                    match self.parse_stmt() {
                        Err(e) => {
                            return Err(e);
                        },
                        Ok(None) => {
                            if self.pos < self.tokens.len() {
                                match &self.tokens[self.pos] {
                                    token::T::RBrace => {
                                        self.pos = self.pos + 1;
                                        break ;
                                    },
                                    other => {
                                        return Err(
                                            Error::ExpectedToken(
                                                Expected::RBrace,
                                                other.duplicate(),
                                            ),
                                        );
                                    },
                                }
                            } else {
                                return Err(Error::UnexpectedEof);
                            }
                        },
                        Ok(Some(st)) => {
                            if self.pos < self.tokens.len() {
                                match &self.tokens[self.pos] {
                                    token::T::Semicolon => {
                                        self.pos = self.pos + 1;
                                        proof {
                                            lemma_stmts_view_push(stmts@, st);
                                        }
                                        stmts.push(st);
                                    },
                                    other => {
                                        return Err(
                                            Error::ExpectedToken(
                                                Expected::Semicolon,
                                                other.duplicate(),
                                            ),
                                        );
                                    },
                                }
                            } else {
                                return Err(Error::UnexpectedEof);
                            }
                        },
                    }
                }
                Ok(Some(Stmt::Block(stmts)))
            },
            token::T::Var => {
                self.pos = self.pos + 1;
                if self.pos >= self.tokens.len() {
                    return Err(Error::UnexpectedEof);
                }
                let name = match &self.tokens[self.pos] {
                    token::T::Ident(x) => x.clone(),
                    other => {
                        return Err(Error::ExpectedToken(Expected::Ident, other.duplicate()));
                    },
                };
                self.pos = self.pos + 1;
                if self.pos >= self.tokens.len() {
                    return Err(Error::UnexpectedEof);
                }
                match &self.tokens[self.pos] {
                    token::T::Equal => {
                        self.pos = self.pos + 1;
                    },
                    other => {
                        return Err(Error::ExpectedToken(Expected::Equal, other.duplicate()));
                    },
                }
                match self.parse_expr() {
                    Ok(e) => Ok(Some(Stmt::Assign { lhs: name, rhs: e })),
                    Err(e) => Err(e),
                }
            },
            _ => Ok(None),
        }
    }
}

} // verus!
