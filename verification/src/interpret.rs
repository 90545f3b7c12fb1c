//! The evaluator.
//!
//! A tree-walking interpreter over the statement tree, against a stack of
//! lexical scopes. Entering a block pushes a scope and leaving it pops that
//! scope again, on every path, also when evaluation stops on an error;
//! variable lookup searches the scopes innermost first, and assignment
//! always writes into the innermost scope. Printed output is collected as a
//! sequence of rendered lines, which the caller hands to its sink.
//!
//! Every executable method's contract says that it behaves exactly like the
//! spec-level evaluator defined here.
//!
//! Comparison semantics: the four orderings require two numbers; equality
//! requires two values of the same kind and compares them by value, numbers
//! by IEEE equality. Arithmetic requires two numbers; division by zero
//! follows IEEE semantics and yields an infinity or NaN, never an error.

use vstd::prelude::*;
use crate::ast;
use crate::bytes;
use crate::num;
use crate::parse;
use crate::parse::Expr;
use crate::parse::Lit;
use crate::parse::Stmt;
use crate::parse::Unary;
use crate::parse::stmts_view;
use crate::parse::stmts_view_from;
use crate::parse::stmt_view;
use crate::parse::lemma_stmts_view_from;

verus! {

broadcast use vstd::seq::axiom_seq_index_decreases, vstd::std_specs::vec::axiom_vec_index_decreases;

/// A runtime value.
#[derive(Debug, PartialEq)]
pub enum Value {
    /// A number, as the bit pattern of an IEEE 754 double.
    Number(u64),
    /// A string, as UTF-8 bytes.
    Str(Vec<u8>),
    Bool(bool),
    Nil,
}

/// The mathematical view of a runtime value.
pub enum ValueM {
    Number(u64),
    Str(Seq<u8>),
    Bool(bool),
    Nil,
}

impl View for Value {
    type V = ValueM;

    open spec fn view(&self) -> ValueM {
        match self {
            Value::Number(b) => ValueM::Number(*b),
            Value::Str(s) => ValueM::Str(s@),
            Value::Bool(b) => ValueM::Bool(*b),
            Value::Nil => ValueM::Nil,
        }
    }
}

impl Value {
    /// A copy of this value that provably carries the same view.
    pub fn duplicate(&self) -> (r: Value)
        ensures
            r@ == self@,
    {
        match self {
            Value::Number(b) => Value::Number(*b),
            Value::Str(s) => Value::Str(s.clone()),
            Value::Bool(b) => Value::Bool(*b),
            Value::Nil => Value::Nil,
        }
    }
}

/// The kind of a runtime value, for error reporting.
#[derive(Copy, Clone, Debug, PartialEq, Eq, Structural)]
pub enum Kind {
    Number,
    Str,
    Bool,
    Nil,
}

/// The kind of a value.
pub open spec fn kind_of(v: ValueM) -> Kind {
    match v {
        ValueM::Number(_) => Kind::Number,
        ValueM::Str(_) => Kind::Str,
        ValueM::Bool(_) => Kind::Bool,
        ValueM::Nil => Kind::Nil,
    }
}

/// The operation during which a type mismatch arose.
#[derive(Copy, Clone, Debug, PartialEq, Eq, Structural)]
pub enum OpKind {
    Unary(parse::Unary),
    Binary(ast::Bop),
}

/// A runtime error. Evaluation fails fast: the first error aborts it, after
/// unwinding the scopes entered so far.
#[derive(Debug, PartialEq)]
pub enum Error {
    /// The named variable is bound in no scope.
    UndefinedVariable(Vec<u8>),
    /// An operand had the wrong kind for the operation.
    TypeMismatch { expected: Kind, found: Value, op: OpKind },
}

/// The mathematical view of a runtime error.
pub enum ErrM {
    UndefinedVariable(Seq<u8>),
    TypeMismatch { expected: Kind, found: ValueM, op: OpKind },
}

impl View for Error {
    type V = ErrM;

    open spec fn view(&self) -> ErrM {
        match self {
            Error::UndefinedVariable(x) => ErrM::UndefinedVariable(x@),
            Error::TypeMismatch { expected, found, op } => ErrM::TypeMismatch {
                expected: *expected,
                found: found@,
                op: *op,
            },
        }
    }
}

/// One lexical scope: bindings from name to value, keys unique, as built by
/// `scope_insert`.
pub type ScopeM = Seq<(Seq<u8>, ValueM)>;

/// The whole environment: a stack of scopes, innermost last.
pub type EnvM = Seq<ScopeM>;

/// The view of one executable scope.
pub open spec fn scope_view(sc: Seq<(Vec<u8>, Value)>) -> ScopeM {
    sc.map_values(|p: (Vec<u8>, Value)| (p.0@, p.1@))
}

/// The view of the executable scope stack.
pub open spec fn envs_view(envs: Seq<Vec<(Vec<u8>, Value)>>) -> EnvM {
    envs.map_values(|sc: Vec<(Vec<u8>, Value)>| scope_view(sc@))
}

/// The view of the collected output lines.
pub open spec fn out_view(out: Seq<Vec<u8>>) -> Seq<Seq<u8>> {
    out.map_values(|l: Vec<u8>| l@)
}

/// The first index at or past `i` where scope `sc` binds `x`, if any.
pub open spec fn scope_find(sc: ScopeM, x: Seq<u8>, i: int) -> Option<int>
    decreases sc.len() - i,
{
    if 0 <= i < sc.len() {
        if sc[i].0 == x {
            Some(i)
        } else {
            scope_find(sc, x, i + 1)
        }
    } else {
        None
    }
}

/// The value scope `sc` binds to `x`, if any.
pub open spec fn scope_lookup(sc: ScopeM, x: Seq<u8>) -> Option<ValueM> {
    match scope_find(sc, x, 0) {
        Some(i) => Some(sc[i].1),
        None => None,
    }
}

/// Bind `x` to `v` in scope `sc`: replace the first binding of `x`, or
/// append one.
pub open spec fn scope_insert(sc: ScopeM, x: Seq<u8>, v: ValueM) -> ScopeM {
    match scope_find(sc, x, 0) {
        Some(i) => sc.update(i, (x, v)),
        None => sc.push((x, v)),
    }
}

/// The value bound to `x` by one of the topmost `i` scopes, searching the
/// innermost (last) scope first.
pub open spec fn env_lookup_down(envs: EnvM, x: Seq<u8>, i: int) -> Option<ValueM>
    decreases i,
{
    if 0 < i <= envs.len() {
        match scope_lookup(envs[i - 1], x) {
            Some(v) => Some(v),
            None => env_lookup_down(envs, x, i - 1),
        }
    } else {
        None
    }
}

/// The value bound to `x`, searching the scopes innermost first.
pub open spec fn env_lookup(envs: EnvM, x: Seq<u8>) -> Option<ValueM> {
    env_lookup_down(envs, x, envs.len() as int)
}

/// Bind `x` to `v` in the innermost scope.
pub open spec fn env_insert(envs: EnvM, x: Seq<u8>, v: ValueM) -> EnvM {
    envs.update(envs.len() - 1, scope_insert(envs.last(), x, v))
}

/// Evaluate a literal: lower it to a value, or look a variable up.
pub open spec fn eval_lit_s(envs: EnvM, l: parse::LitM) -> Result<ValueM, ErrM> {
    match l {
        parse::LitM::Var(x) => match env_lookup(envs, x) {
            Some(v) => Ok(v),
            None => Err(ErrM::UndefinedVariable(x)),
        },
        parse::LitM::Number(b) => Ok(ValueM::Number(b)),
        parse::LitM::Str(s) => Ok(ValueM::Str(s)),
        parse::LitM::Bool(b) => Ok(ValueM::Bool(b)),
        parse::LitM::Nil => Ok(ValueM::Nil),
    }
}

/// Evaluate a unary operator: negation takes a number, logical not takes a
/// boolean.
pub open spec fn eval_unary_s(op: parse::Unary, v: ValueM) -> Result<ValueM, ErrM> {
    match op {
        parse::Unary::Negate => match v {
            ValueM::Number(b) => Ok(ValueM::Number(num::float_neg(b))),
            _ => Err(
                ErrM::TypeMismatch {
                    expected: Kind::Number,
                    found: v,
                    op: OpKind::Unary(parse::Unary::Negate),
                },
            ),
        },
        parse::Unary::Not => match v {
            ValueM::Bool(b) => Ok(ValueM::Bool(!b)),
            _ => Err(
                ErrM::TypeMismatch {
                    expected: Kind::Bool,
                    found: v,
                    op: OpKind::Unary(parse::Unary::Not),
                },
            ),
        },
    }
}

/// The type-mismatch error for binary operator `op`.
pub open spec fn bop_mismatch(op: ast::Bop, expected: Kind, found: ValueM) -> ErrM {
    ErrM::TypeMismatch { expected, found, op: OpKind::Binary(op) }
}

/// Evaluate a binary operator on two values. Arithmetic and ordering take
/// two numbers; equality takes two values of the same kind and compares
/// them by value, numbers by IEEE equality.
pub open spec fn eval_binary_s(op: ast::Bop, l: ValueM, r: ValueM) -> Result<ValueM, ErrM> {
    match op {
        ast::Bop::Add | ast::Bop::Sub | ast::Bop::Mul | ast::Bop::Div | ast::Bop::Gt
            | ast::Bop::Ge | ast::Bop::Lt | ast::Bop::Le => {
            match l {
                ValueM::Number(lb) => match r {
                    ValueM::Number(rb) => Ok(
                        match op {
                            ast::Bop::Add => ValueM::Number(num::float_add(lb, rb)),
                            ast::Bop::Sub => ValueM::Number(num::float_sub(lb, rb)),
                            ast::Bop::Mul => ValueM::Number(num::float_mul(lb, rb)),
                            ast::Bop::Div => ValueM::Number(num::float_div(lb, rb)),
                            ast::Bop::Lt => ValueM::Bool(num::float_lt(lb, rb)),
                            ast::Bop::Le => ValueM::Bool(num::float_le(lb, rb)),
                            ast::Bop::Gt => ValueM::Bool(num::float_lt(rb, lb)),
                            _ => ValueM::Bool(num::float_le(rb, lb)),
                        },
                    ),
                    _ => Err(bop_mismatch(op, Kind::Number, r)),
                },
                _ => Err(bop_mismatch(op, Kind::Number, l)),
            }
        },
        ast::Bop::Equal | ast::Bop::NotEqual => {
            match eq_values(l, r) {
                Some(same) => Ok(
                    ValueM::Bool(
                        if op is Equal {
                            same
                        } else {
                            !same
                        },
                    ),
                ),
                None => Err(bop_mismatch(op, kind_of(l), r)),
            }
        },
        _ => Err(bop_mismatch(op, Kind::Number, l)),
    }
}

/// Whether two values of the same kind are equal by value, or `None` when
/// their kinds differ.
pub open spec fn eq_values(l: ValueM, r: ValueM) -> Option<bool> {
    match l {
        ValueM::Number(lb) => match r {
            ValueM::Number(rb) => Some(num::float_eq(lb, rb)),
            _ => None,
        },
        ValueM::Str(ls) => match r {
            ValueM::Str(rs) => Some(ls == rs),
            _ => None,
        },
        ValueM::Bool(lb) => match r {
            ValueM::Bool(rb) => Some(lb == rb),
            _ => None,
        },
        ValueM::Nil => match r {
            ValueM::Nil => Some(true),
            _ => None,
        },
    }
}

/// Evaluate an expression against the scope stack: left operands before
/// right ones, failing fast.
pub open spec fn eval_expr_s(envs: EnvM, e: parse::ExprM) -> Result<ValueM, ErrM>
    decreases e,
{
    match e {
        parse::ExprM::Lit(l) => eval_lit_s(envs, l),
        parse::ExprM::Unary(op, e1) => match eval_expr_s(envs, *e1) {
            Ok(v) => eval_unary_s(op, v),
            Err(er) => Err(er),
        },
        parse::ExprM::Binary(op, l, r) => match eval_expr_s(envs, *l) {
            Err(er) => Err(er),
            Ok(vl) => match eval_expr_s(envs, *r) {
                Err(er) => Err(er),
                Ok(vr) => eval_binary_s(op, vl, vr),
            },
        },
    }
}

/// The textual rendering of a value: a number at its natural precision, a
/// string as itself, `true`/`false`, and `nil`.
pub open spec fn render_s(v: ValueM) -> Seq<u8> {
    match v {
        ValueM::Number(b) => num::float_text(b),
        ValueM::Str(s) => s,
        ValueM::Bool(b) => if b {
            seq![116u8, 114u8, 117u8, 101u8]  // true
        } else {
            seq![102u8, 97u8, 108u8, 115u8, 101u8]  // false
        },
        ValueM::Nil => seq![110u8, 105u8, 108u8],  // nil
    }
}

/// Evaluate one statement: the scope stack and output afterwards, and the
/// error evaluation stopped on, if any. A block's scope is popped on every
/// path, also when a child statement fails.
pub open spec fn eval_stmt_s(envs: EnvM, out: Seq<Seq<u8>>, st: parse::StmtM) -> (
    EnvM,
    Seq<Seq<u8>>,
    Option<ErrM>,
)
    decreases st, 0int, 0int,
{
    match st {
        parse::StmtM::Print(e) => match eval_expr_s(envs, e) {
            Ok(v) => (envs, out.push(render_s(v)), None::<ErrM>),
            Err(er) => (envs, out, Some(er)),
        },
        parse::StmtM::Block(stmts) => {
            let stepped = eval_stmts_s(envs.push(Seq::empty()), out, stmts, 0);
            (stepped.0.drop_last(), stepped.1, stepped.2)
        },
        parse::StmtM::Assign { lhs, rhs } => match eval_expr_s(envs, rhs) {
            Ok(v) => if envs.len() > 0 {
                (env_insert(envs, lhs, v), out, None::<ErrM>)
            } else {
                // Assignment needs a scope to write into; the evaluator is
                // never entered this way.
                (envs, out, None::<ErrM>)
            },
            Err(er) => (envs, out, Some(er)),
        },
    }
}

/// Evaluate the statements of `stmts` from index `i` on, in order, stopping
/// at the first error.
pub open spec fn eval_stmts_s(envs: EnvM, out: Seq<Seq<u8>>, stmts: Seq<parse::StmtM>, i: int) -> (
    EnvM,
    Seq<Seq<u8>>,
    Option<ErrM>,
)
    decreases stmts, 1int, stmts.len() - i,
{
    if 0 <= i < stmts.len() {
        let stepped = eval_stmt_s(envs, out, stmts[i]);
        match stepped.2 {
            Some(er) => (stepped.0, stepped.1, Some(er)),
            None => eval_stmts_s(stepped.0, stepped.1, stmts, i + 1),
        }
    } else {
        (envs, out, None::<ErrM>)
    }
}


/// Looking a variable up fails, with an undefined-variable error naming it,
/// exactly when no scope on the stack binds it; evaluation of any other
/// literal always succeeds.
pub proof fn lemma_undefined_variable(envs: EnvM, l: parse::LitM)
    ensures
        match l {
            parse::LitM::Var(x) => (env_lookup(envs, x) is None <==> eval_lit_s(envs, l)
                == Err::<ValueM, ErrM>(ErrM::UndefinedVariable(x))),
            _ => eval_lit_s(envs, l) is Ok,
        },
{
}

/// Lexical scoping is respected: evaluating a statement never changes how
/// many scopes are on the stack, never touches any scope but the innermost,
/// and a statement that is not an assignment leaves the stack exactly as it
/// was -- in particular a block restores it even when a child statement
/// fails, so an inner binding never survives its block.
pub proof fn lemma_eval_stmt_scopes(envs: EnvM, out: Seq<Seq<u8>>, st: parse::StmtM)
    ensures
        ({
            let stepped = eval_stmt_s(envs, out, st);
            &&& stepped.0.len() == envs.len()
            &&& forall|k: int| 0 <= k < envs.len() - 1 ==> stepped.0[k] == envs[k]
            &&& !(st is Assign) ==> stepped.0 == envs
        }),
    decreases st, 0int, 0int,
{
    match st {
        parse::StmtM::Block(stmts) => {
            let entered = envs.push(Seq::<(Seq<u8>, ValueM)>::empty());
            lemma_eval_stmts_scopes(entered, out, stmts, 0);
            let stepped = eval_stmts_s(entered, out, stmts, 0);
            assert(stepped.0.len() == entered.len());
            assert forall|k: int| 0 <= k < envs.len() implies stepped.0[k] == envs[k] by {
                assert(stepped.0[k] == entered[k]);
                assert(entered[k] == envs[k]);
            }
            assert(stepped.0.drop_last() =~= envs);
        },
        _ => (),
    }
}

/// As `lemma_eval_stmt_scopes`, for a run of statements.
pub proof fn lemma_eval_stmts_scopes(
    envs: EnvM,
    out: Seq<Seq<u8>>,
    stmts: Seq<parse::StmtM>,
    i: int,
)
    ensures
        ({
            let stepped = eval_stmts_s(envs, out, stmts, i);
            &&& stepped.0.len() == envs.len()
            &&& forall|k: int| 0 <= k < envs.len() - 1 ==> stepped.0[k] == envs[k]
        }),
    decreases stmts, 1int, stmts.len() - i,
{
    if 0 <= i < stmts.len() {
        lemma_eval_stmt_scopes(envs, out, stmts[i]);
        let stepped = eval_stmt_s(envs, out, stmts[i]);
        if stepped.2 is None {
            lemma_eval_stmts_scopes(stepped.0, stepped.1, stmts, i + 1);
        }
    }
}

/// The interpreter: a scope stack and the output collected so far.
pub struct Interpreter {
    envs: Vec<Vec<(Vec<u8>, Value)>>,
    out: Vec<Vec<u8>>,
}

impl Interpreter {
    /// The view of the scope stack.
    pub closed spec fn envs_v(&self) -> EnvM {
        envs_view(self.envs@)
    }

    /// The view of the output collected so far.
    pub closed spec fn out_v(&self) -> Seq<Seq<u8>> {
        out_view(self.out@)
    }

    /// A fresh interpreter: no scopes, no output.
    pub fn new() -> (r: Interpreter)
        ensures
            r.envs_v() == Seq::<ScopeM>::empty(),
            r.out_v() == Seq::<Seq<u8>>::empty(),
    {
        let r = Interpreter { envs: Vec::new(), out: Vec::new() };
        proof {
            assert(r.envs_v() =~= Seq::<ScopeM>::empty());
            assert(r.out_v() =~= Seq::<Seq<u8>>::empty());
        }
        r
    }

    /// How many scopes are on the stack.
    pub fn depth(&self) -> (r: usize)
        ensures
            r == self.envs_v().len(),
    {
        self.envs.len()
    }

    /// The output lines collected so far.
    pub fn output(&self) -> (r: &Vec<Vec<u8>>)
        ensures
            out_view(r@) == self.out_v(),
    {
        &self.out
    }

    /// The output lines, handed over to the caller.
    pub fn into_output(self) -> (r: Vec<Vec<u8>>)
        ensures
            out_view(r@) == self.out_v(),
    {
        self.out
    }

    /// Push a fresh, empty scope; an assignment then has a scope to write
    /// into.
    pub fn push_scope(&mut self)
        ensures
            final(self).envs_v() == old(self).envs_v().push(Seq::<(Seq<u8>, ValueM)>::empty()),
            final(self).out_v() == old(self).out_v(),
    {
        self.envs.push(Vec::new());
        proof {
            assert(scope_view(Seq::<(Vec<u8>, Value)>::empty())
                =~= Seq::<(Seq<u8>, ValueM)>::empty());
            assert(self.envs_v() =~= old(self).envs_v().push(
                Seq::<(Seq<u8>, ValueM)>::empty(),
            ));
        }
    }

    /// The index of the binding of `x` in scope `sc`, if any.
    fn scope_index(sc: &Vec<(Vec<u8>, Value)>, x: &Vec<u8>) -> (r: Option<usize>)
        ensures
            match scope_find(scope_view(sc@), x@, 0) {
                Some(k) => r matches Some(j) && j == k && 0 <= k < sc@.len(),
                None => r is None,
            },
    {
        let ghost scm = scope_view(sc@);
        let mut j: usize = 0;
        while j < sc.len()
            invariant
                0 <= j <= sc@.len(),
                scm == scope_view(sc@),
                scope_find(scm, x@, j as int) == scope_find(scm, x@, 0),
            decreases sc@.len() - j,
        {
            proof {
                assert(scm[j as int] == (sc@[j as int].0@, sc@[j as int].1@));
            }
            if bytes::bytes_eq(&sc[j].0, x) {
                return Some(j);
            }
            j = j + 1;
        }
        None
    }

    /// The value bound to `x`, searching the scopes innermost first.
    fn lookup(&self, x: &Vec<u8>) -> (r: Option<Value>)
        ensures
            match env_lookup(self.envs_v(), x@) {
                Some(v) => r matches Some(rv) && rv@ == v,
                None => r is None,
            },
    {
        let ghost em = self.envs_v();
        let mut i: usize = self.envs.len();
        while i > 0
            invariant
                0 <= i <= self.envs@.len(),
                em == self.envs_v(),
                env_lookup_down(em, x@, i as int) == env_lookup(em, x@),
            decreases i,
        {
            let sc = &self.envs[i - 1];
            proof {
                assert(em[i as int - 1] == scope_view(sc@));
            }
            match Self::scope_index(sc, x) {
                Some(j) => {
                    proof {
                        assert(scope_view(sc@)[j as int] == (sc@[j as int].0@, sc@[j as int].1@));
                    }
                    return Some(sc[j].1.duplicate());
                },
                None => {
                    i = i - 1;
                },
            }
        }
        None
    }

    /// Bind `x` to `v` in the innermost scope: replace its binding of `x`,
    /// or add one.
    fn assign(&mut self, x: Vec<u8>, v: Value)
        requires
            old(self).envs_v().len() > 0,
        ensures
            final(self).envs_v() == env_insert(old(self).envs_v(), x@, v@),
            final(self).out_v() == old(self).out_v(),
    {
        let ghost em = self.envs_v();
        let ghost xv = x@;
        let ghost vv = v@;
        let mut sc = match self.envs.pop() {
            Some(sc) => sc,
            None => {
                return ;
            },
        };
        let ghost scm = scope_view(sc@);
        proof {
            assert(em[em.len() - 1] == scm);
        }
        match Self::scope_index(&sc, &x) {
            Some(j) => {
                sc.remove(j);
                sc.insert(j, (x, v));
                proof {
                    assert(scope_view(sc@) =~= scope_insert(scm, xv, vv));
                }
            },
            None => {
                sc.push((x, v));
                proof {
                    assert(scope_view(sc@) =~= scope_insert(scm, xv, vv));
                }
            },
        }
        self.envs.push(sc);
        proof {
            assert(self.envs_v() =~= env_insert(em, xv, vv));
        }
    }

    /// Evaluate an expression against the current scope stack. The stack and
    /// the output are left untouched.
    pub fn eval_expr(&mut self, expr: &Expr) -> (r: Result<Value, Error>)
        ensures
            final(self).envs_v() == old(self).envs_v(),
            final(self).out_v() == old(self).out_v(),
            match eval_expr_s(old(self).envs_v(), expr@) {
                Ok(v) => r matches Ok(rv) && rv@ == v,
                Err(e) => r matches Err(re) && re@ == e,
            },
        decreases expr,
    {
        match expr {
            Expr::Lit(l) => match l {
                Lit::Var(x) => match self.lookup(x) {
                    Some(v) => Ok(v),
                    None => Err(Error::UndefinedVariable(x.clone())),
                },
                Lit::Number(b) => Ok(Value::Number(*b)),
                Lit::Str(s) => Ok(Value::Str(s.clone())),
                Lit::Bool(b) => Ok(Value::Bool(*b)),
                Lit::Nil => Ok(Value::Nil),
            },
            Expr::Unary(op, e1) => {
                let v = match self.eval_expr(e1) {
                    Ok(v) => v,
                    Err(e) => {
                        return Err(e);
                    },
                };
                match op {
                    Unary::Negate => match v {
                        Value::Number(b) => Ok(Value::Number(num::neg_bits(b))),
                        _ => Err(
                            Error::TypeMismatch {
                                expected: Kind::Number,
                                found: v,
                                op: OpKind::Unary(Unary::Negate),
                            },
                        ),
                    },
                    Unary::Not => match v {
                        Value::Bool(b) => Ok(Value::Bool(!b)),
                        _ => Err(
                            Error::TypeMismatch {
                                expected: Kind::Bool,
                                found: v,
                                op: OpKind::Unary(Unary::Not),
                            },
                        ),
                    },
                }
            },
            Expr::Binary(op, l, r) => {
                let vl = match self.eval_expr(l) {
                    Ok(v) => v,
                    Err(e) => {
                        return Err(e);
                    },
                };
                let vr = match self.eval_expr(r) {
                    Ok(v) => v,
                    Err(e) => {
                        return Err(e);
                    },
                };
                Self::eval_binary(*op, vl, vr)
            },
        }
    }

    /// Apply a binary operator to two evaluated operands.
    fn eval_binary(op: ast::Bop, vl: Value, vr: Value) -> (r: Result<Value, Error>)
        ensures
            match eval_binary_s(op, vl@, vr@) {
                Ok(v) => r matches Ok(rv) && rv@ == v,
                Err(e) => r matches Err(re) && re@ == e,
            },
    {
        match op {
            ast::Bop::Equal | ast::Bop::NotEqual => {
                let same = match (&vl, &vr) {
                    (Value::Number(lb), Value::Number(rb)) => Some(num::eq_bits(*lb, *rb)),
                    (Value::Str(ls), Value::Str(rs)) => Some(bytes::bytes_eq(ls, rs)),
                    (Value::Bool(lb), Value::Bool(rb)) => Some(*lb == *rb),
                    (Value::Nil, Value::Nil) => Some(true),
                    _ => None,
                };
                match same {
                    Some(same) => Ok(
                        Value::Bool(
                            if matches!(op, ast::Bop::Equal) {
                                same
                            } else {
                                !same
                            },
                        ),
                    ),
                    None => {
                        let expected = match &vl {
                            Value::Number(_) => Kind::Number,
                            Value::Str(_) => Kind::Str,
                            Value::Bool(_) => Kind::Bool,
                            Value::Nil => Kind::Nil,
                        };
                        Err(Error::TypeMismatch { expected, found: vr, op: OpKind::Binary(op) })
                    },
                }
            },
            _ => {
                let lb = match &vl {
                    Value::Number(lb) => *lb,
                    _ => {
                        return Err(
                            Error::TypeMismatch {
                                expected: Kind::Number,
                                found: vl,
                                op: OpKind::Binary(op),
                            },
                        );
                    },
                };
                let rb = match &vr {
                    Value::Number(rb) => *rb,
                    _ => {
                        return Err(
                            Error::TypeMismatch {
                                expected: Kind::Number,
                                found: vr,
                                op: OpKind::Binary(op),
                            },
                        );
                    },
                };
                match op {
                    ast::Bop::Add => Ok(Value::Number(num::add_bits(lb, rb))),
                    ast::Bop::Sub => Ok(Value::Number(num::sub_bits(lb, rb))),
                    ast::Bop::Mul => Ok(Value::Number(num::mul_bits(lb, rb))),
                    ast::Bop::Div => Ok(Value::Number(num::div_bits(lb, rb))),
                    ast::Bop::Lt => Ok(Value::Bool(num::lt_bits(lb, rb))),
                    ast::Bop::Le => Ok(Value::Bool(num::le_bits(lb, rb))),
                    ast::Bop::Gt => Ok(Value::Bool(num::lt_bits(rb, lb))),
                    _ => Ok(Value::Bool(num::le_bits(rb, lb))),
                }
            },
        }
    }

    /// The textual rendering of a value.
    pub fn render(v: &Value) -> (r: Vec<u8>)
        ensures
            r@ == render_s(v@),
    {
        match v {
            Value::Number(b) => num::text_of_bits(*b),
            Value::Str(s) => s.clone(),
            Value::Bool(b) => {
                if *b {
                    let r: Vec<u8> = vec![116u8, 114, 117, 101];
                    proof {
                        assert(r@ =~= render_s(v@));
                    }
                    r
                } else {
                    let r: Vec<u8> = vec![102u8, 97, 108, 115, 101];
                    proof {
                        assert(r@ =~= render_s(v@));
                    }
                    r
                }
            },
            Value::Nil => {
                let r: Vec<u8> = vec![110u8, 105, 108];
                proof {
                    assert(r@ =~= render_s(v@));
                }
                r
            },
        }
    }

    /// Evaluate one statement: render and collect what it prints, and leave
    /// the scope stack as deep as it was. A block's scope is pushed on entry
    /// and popped on every exit path, also when a child statement fails.
    pub fn eval_stmt(&mut self, stmt: &Stmt) -> (r: Result<(), Error>)
        requires
            stmt@ is Assign ==> old(self).envs_v().len() > 0,
        ensures
            ({
                let stepped = eval_stmt_s(old(self).envs_v(), old(self).out_v(), stmt@);
                &&& final(self).envs_v() == stepped.0
                &&& final(self).out_v() == stepped.1
                &&& match stepped.2 {
                    None => r is Ok,
                    Some(e) => r matches Err(re) && re@ == e,
                }
            }),
        decreases stmt,
    {
        match stmt {
            Stmt::Print(e) => {
                let v = match self.eval_expr(e) {
                    Ok(v) => v,
                    Err(er) => {
                        return Err(er);
                    },
                };
                let line = Self::render(&v);
                let ghost out_old = self.out_v();
                self.out.push(line);
                proof {
                    assert(self.out_v() =~= out_old.push(render_s(v@)));
                }
                Ok(())
            },
            Stmt::Assign { lhs, rhs } => {
                let v = match self.eval_expr(rhs) {
                    Ok(v) => v,
                    Err(er) => {
                        return Err(er);
                    },
                };
                self.assign(lhs.clone(), v);
                Ok(())
            },
            Stmt::Block(stmts) => {
                let ghost envs0 = self.envs_v();
                let ghost out0 = self.out_v();
                let ghost stmtsm = stmts_view(stmts@);
                let ghost entered = envs0.push(Seq::<(Seq<u8>, ValueM)>::empty());
                self.envs.push(Vec::new());
                proof {
                    assert(scope_view(Seq::<(Vec<u8>, Value)>::empty())
                        =~= Seq::<(Seq<u8>, ValueM)>::empty());
                    assert(self.envs_v() =~= entered);
                    lemma_stmts_view_from(stmts@, 0);
                }
                let mut i: usize = 0;
                let mut failure: Option<Error> = None;
                loop
                    invariant_except_break
                        failure is None,
                        eval_stmts_s(self.envs_v(), self.out_v(), stmtsm, i as int)
                            == eval_stmts_s(entered, out0, stmtsm, 0),
                    invariant
                        0 <= i <= stmts@.len(),
                        *stmt == Stmt::Block(*stmts),
                        stmtsm == stmts_view(stmts@),
                        stmtsm.len() == stmts@.len(),
                        forall|k: int|
                            0 <= k < stmts@.len() ==> #[trigger] stmts_view_from(stmts@, 0)[k]
                                == stmt_view(stmts@[k]),
                        self.envs_v().len() > 0,
                    ensures
                        ({
                            let stepped = eval_stmts_s(entered, out0, stmtsm, 0);
                            &&& self.envs_v() == stepped.0
                            &&& self.out_v() == stepped.1
                            &&& match stepped.2 {
                                None => failure is None,
                                Some(e) => failure matches Some(f) && f@ == e,
                            }
                        }),
                    decreases stmts@.len() - i,
                {
                    if i >= stmts.len() {
                        break ;
                    }
                    let ghost epre = self.envs_v();
                    let ghost opre = self.out_v();
                    proof {
                        assert(stmtsm[i as int] == stmt_view(stmts@[i as int]));
                        assert(stmt->Block_0 == *stmts);
                        assert(decreases_to!(*stmt => stmt->Block_0));
                        assert(decreases_to!(*stmts => stmts@[i as int]));
                        lemma_eval_stmt_scopes(epre, opre, stmtsm[i as int]);
                    }
                    match self.eval_stmt(&stmts[i]) {
                        Ok(()) => {
                            i = i + 1;
                        },
                        Err(er) => {
                            failure = Some(er);
                            break ;
                        },
                    }
                }
                let ghost envs_end = self.envs_v();
                self.envs.pop();
                proof {
                    assert(self.envs_v() =~= envs_end.drop_last());
                }
                match failure {
                    None => Ok(()),
                    Some(er) => Err(er),
                }
            },
        }
    }
}

} // verus!
