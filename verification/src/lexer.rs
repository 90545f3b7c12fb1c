//! The lexer.
//!
//! `T` walks the source bytes behind a cursor, skipping whitespace and
//! comments (line comments and nesting block comments), and produces one
//! `(span, token)` pair at a time. Every method's contract ties what it
//! consumed and produced to spec functions over the source bytes, so that
//! the emitted spans provably tile the input.
//!
//! Number literals extend over a maximal run of digits with at most one
//! decimal point, and may start with a decimal point when a digit follows
//! it; the run's text is converted to an IEEE double by `crate::num`.

use vstd::prelude::*;
use crate::num;
use crate::span;
use crate::token;

verus! {

/// Horizontal tab.
pub const TAB: u8 = 9;

/// Line feed: ends a row and a line comment.
pub const NL: u8 = 10;

/// Form feed.
pub const FF: u8 = 12;

/// Carriage return.
pub const CR: u8 = 13;

/// Space.
pub const SPACE: u8 = 32;

/// `"` delimits string literals.
pub const QUOTE: u8 = 34;

/// `.` is the decimal point and the dot token.
pub const DOT: u8 = 46;

/// `/` introduces comments and is the division operator.
pub const SLASH: u8 = 47;

/// `*` closes block comments and is the multiplication operator.
pub const STAR: u8 = 42;

/// An error found while lexing. Each carries the span of the offending text.
#[derive(Copy, Clone, Debug, PartialEq, Eq, Structural)]
pub enum Error {
    /// A string literal whose closing quote never comes; the span runs from
    /// the opening quote to the end of the input.
    UnterminatedString(span::T),
    /// A byte that cannot start any token.
    UnexpectedChar(span::T, u8),
    /// A number literal that does not denote a double.
    MalformedNumber(span::T),
}

/// Whether `b` can start an identifier: an ASCII letter or an underscore.
pub open spec fn is_ident_head_s(b: u8) -> bool {
    (65 <= b <= 90) || (97 <= b <= 122) || b == 95
}

/// Whether `b` can continue an identifier: a letter, a digit or an
/// underscore.
pub open spec fn is_ident_tail_s(b: u8) -> bool {
    is_ident_head_s(b) || is_number_s(b)
}

/// Whether `b` is an ASCII digit.
pub open spec fn is_number_s(b: u8) -> bool {
    48 <= b <= 57
}

/// Whether `b` is ASCII whitespace.
pub open spec fn is_whitespace_s(b: u8) -> bool {
    b == SPACE || b == TAB || b == NL || b == CR || b == FF
}

/// Whether `b` is a UTF-8 continuation byte, which does not begin a
/// character and so does not advance the column count.
pub open spec fn is_continuation_s(b: u8) -> bool {
    128 <= b < 192
}

/// Whether `b` can start an identifier: an ASCII letter or an underscore.
pub fn is_ident_head(b: u8) -> (r: bool)
    ensures
        r == is_ident_head_s(b),
{
    (65 <= b && b <= 90) || (97 <= b && b <= 122) || b == 95
}

/// Whether `b` can continue an identifier: a letter, a digit or an
/// underscore.
pub fn is_ident_tail(b: u8) -> (r: bool)
    ensures
        r == is_ident_tail_s(b),
{
    is_ident_head(b) || is_number(b)
}

/// Whether `b` is an ASCII digit.
pub fn is_number(b: u8) -> (r: bool)
    ensures
        r == is_number_s(b),
{
    48 <= b && b <= 57
}

/// Whether `b` is ASCII whitespace.
pub fn is_whitespace(b: u8) -> (r: bool)
    ensures
        r == is_whitespace_s(b),
{
    b == SPACE || b == TAB || b == NL || b == CR || b == FF
}

/// The state of the whitespace-and-comment skipper: between tokens, inside
/// a line comment, or inside a block comment at some nesting depth.
pub enum SkipState {
    Ws,
    Line,
    Block(int),
}

/// Where skipping that starts at offset `i` in state `st` ends: the offset
/// of the first byte of the next token. A comment left open at the end of
/// the input consumes the rest of the input.
pub open spec fn skip_from(s: Seq<u8>, i: int, st: SkipState) -> int
    decreases s.len() - i,
{
    if i < 0 || i >= s.len() {
        if st is Ws {
            i
        } else {
            s.len() as int
        }
    } else {
        match st {
            SkipState::Ws => {
                if is_whitespace_s(s[i]) {
                    skip_from(s, i + 1, SkipState::Ws)
                } else if s[i] == SLASH && i + 1 < s.len() && s[i + 1] == SLASH {
                    skip_from(s, i + 2, SkipState::Line)
                } else if s[i] == SLASH && i + 1 < s.len() && s[i + 1] == STAR {
                    skip_from(s, i + 2, SkipState::Block(0))
                } else {
                    i
                }
            },
            SkipState::Line => {
                if s[i] == NL {
                    skip_from(s, i + 1, SkipState::Ws)
                } else {
                    skip_from(s, i + 1, SkipState::Line)
                }
            },
            SkipState::Block(d) => {
                if s[i] == SLASH && i + 1 < s.len() && s[i + 1] == STAR {
                    skip_from(s, i + 2, SkipState::Block(d + 1))
                } else if s[i] == STAR && i + 1 < s.len() && s[i + 1] == SLASH {
                    if d == 0 {
                        skip_from(s, i + 2, SkipState::Ws)
                    } else {
                        skip_from(s, i + 2, SkipState::Block(d - 1))
                    }
                } else {
                    skip_from(s, i + 1, SkipState::Block(d))
                }
            },
        }
    }
}

/// Skipping never moves backwards and never leaves the input.
pub proof fn lemma_skip_bounds(s: Seq<u8>, i: int, st: SkipState)
    requires
        0 <= i <= s.len(),
    ensures
        i <= skip_from(s, i, st) <= s.len(),
    decreases s.len() - i,
{
    if i < s.len() {
        match st {
            SkipState::Ws => {
                if is_whitespace_s(s[i]) {
                    lemma_skip_bounds(s, i + 1, SkipState::Ws);
                } else if s[i] == SLASH && i + 1 < s.len() && s[i + 1] == SLASH {
                    lemma_skip_bounds(s, i + 2, SkipState::Line);
                } else if s[i] == SLASH && i + 1 < s.len() && s[i + 1] == STAR {
                    lemma_skip_bounds(s, i + 2, SkipState::Block(0));
                }
            },
            SkipState::Line => {
                if s[i] == NL {
                    lemma_skip_bounds(s, i + 1, SkipState::Ws);
                } else {
                    lemma_skip_bounds(s, i + 1, SkipState::Line);
                }
            },
            SkipState::Block(d) => {
                if s[i] == SLASH && i + 1 < s.len() && s[i + 1] == STAR {
                    lemma_skip_bounds(s, i + 2, SkipState::Block(d + 1));
                } else if s[i] == STAR && i + 1 < s.len() && s[i + 1] == SLASH {
                    if d == 0 {
                        lemma_skip_bounds(s, i + 2, SkipState::Ws);
                    } else {
                        lemma_skip_bounds(s, i + 2, SkipState::Block(d - 1));
                    }
                } else {
                    lemma_skip_bounds(s, i + 1, SkipState::Block(d));
                }
            },
        }
    }
}

/// The skipper's executable state; the block-comment depth lives beside it.
enum Mode {
    Ws,
    Line,
    Block,
}

/// The spec state corresponding to executable state `m` at depth `d`.
spec fn st_of(m: Mode, d: usize) -> SkipState {
    match m {
        Mode::Ws => SkipState::Ws,
        Mode::Line => SkipState::Line,
        Mode::Block => SkipState::Block(d as int),
    }
}

/// The 1-based row of byte offset `i` in source `s`: one more than the
/// number of line feeds strictly before `i`.
pub open spec fn row_at(s: Seq<u8>, i: int) -> int
    decreases i,
{
    if i <= 0 {
        1
    } else {
        row_at(s, i - 1) + if s[i - 1] == NL {
            1int
        } else {
            0int
        }
    }
}

/// The 1-based column of byte offset `i` in source `s`: one more than the
/// number of characters since the latest line feed before `i`.
pub open spec fn col_at(s: Seq<u8>, i: int) -> int
    decreases i,
{
    if i <= 0 {
        1
    } else if s[i - 1] == NL {
        1
    } else {
        col_at(s, i - 1) + if is_continuation_s(s[i - 1]) {
            0int
        } else {
            1int
        }
    }
}

/// The full location of byte offset `i` in source `s`.
pub open spec fn loc_at(s: Seq<u8>, i: int) -> span::Loc {
    span::Loc { idx: i as usize, row: row_at(s, i) as usize, col: col_at(s, i) as usize }
}

/// The span of the byte range `[lo, hi)` of source `s`.
pub open spec fn span_at(s: Seq<u8>, lo: int, hi: int) -> span::T {
    span::T { lo: loc_at(s, lo), hi: loc_at(s, hi) }
}

/// Rows and columns stay within `i + 1`, so tracking them in a `usize`
/// cannot overflow while the offset is in bounds.
pub proof fn lemma_row_col_bounds(s: Seq<u8>, i: int)
    requires
        0 <= i,
    ensures
        1 <= row_at(s, i) <= i + 1,
        1 <= col_at(s, i) <= i + 1,
    decreases i,
{
    if i > 0 {
        lemma_row_col_bounds(s, i - 1);
    }
}

/// The end of an identifier whose remaining characters start at offset `i`:
/// the first offset at or past `i` that does not continue an identifier.
pub open spec fn ident_end(s: Seq<u8>, i: int) -> int
    decreases s.len() - i,
{
    if 0 <= i < s.len() && is_ident_tail_s(s[i]) {
        ident_end(s, i + 1)
    } else {
        i
    }
}

/// An identifier runs at most to the end of the input.
pub proof fn lemma_ident_end_bounds(s: Seq<u8>, i: int)
    requires
        0 <= i <= s.len(),
    ensures
        i <= ident_end(s, i) <= s.len(),
    decreases s.len() - i,
{
    if i < s.len() && is_ident_tail_s(s[i]) {
        lemma_ident_end_bounds(s, i + 1);
    }
}

/// The end of a number literal whose remaining bytes start at offset `i`,
/// where `dot` says whether a decimal point was already consumed: the
/// literal takes every following digit, and the first decimal point that
/// comes up among them.
pub open spec fn number_end(s: Seq<u8>, i: int, dot: bool) -> int
    decreases s.len() - i,
{
    if 0 <= i < s.len() && is_number_s(s[i]) {
        number_end(s, i + 1, dot)
    } else if 0 <= i < s.len() && s[i] == DOT && !dot {
        number_end(s, i + 1, true)
    } else {
        i
    }
}

/// A number literal runs at most to the end of the input.
pub proof fn lemma_number_end_bounds(s: Seq<u8>, i: int, dot: bool)
    requires
        0 <= i <= s.len(),
    ensures
        i <= number_end(s, i, dot) <= s.len(),
    decreases s.len() - i,
{
    if i < s.len() && is_number_s(s[i]) {
        lemma_number_end_bounds(s, i + 1, dot);
    } else if i < s.len() && s[i] == DOT && !dot {
        lemma_number_end_bounds(s, i + 1, true);
    }
}

/// The offset of the first `"` at or past offset `i`, or `None` when no
/// quote comes before the end of the input.
pub open spec fn string_close(s: Seq<u8>, i: int) -> Option<int>
    decreases s.len() - i,
{
    if i < 0 || i >= s.len() {
        None
    } else if s[i] == QUOTE {
        Some(i)
    } else {
        string_close(s, i + 1)
    }
}

/// A found closing quote lies between `i` and the end of the input.
pub proof fn lemma_string_close_bounds(s: Seq<u8>, i: int)
    requires
        0 <= i <= s.len(),
    ensures
        match string_close(s, i) {
            Some(c) => i <= c < s.len() && s[c] == QUOTE,
            None => true,
        },
    decreases s.len() - i,
{
    if i < s.len() && s[i] != QUOTE {
        lemma_string_close_bounds(s, i + 1);
    }
}

/// `(`.
pub const LPAREN: u8 = 40;

/// `)`.
pub const RPAREN: u8 = 41;

/// `{`.
pub const LBRACE: u8 = 123;

/// `}`.
pub const RBRACE: u8 = 125;

/// `,`.
pub const COMMA: u8 = 44;

/// `-`.
pub const MINUS: u8 = 45;

/// `+`.
pub const PLUS: u8 = 43;

/// `;`.
pub const SEMICOLON: u8 = 59;

/// `!`.
pub const BANG: u8 = 33;

/// `=`.
pub const EQUALS: u8 = 61;

/// `<`.
pub const LESS: u8 = 60;

/// `>`.
pub const GREATER: u8 = 62;

/// The two-byte operator token starting at offset `i`, if any: one of `!=`,
/// `==`, `<=`, `>=`.
pub open spec fn double_token(s: Seq<u8>, i: int) -> Option<token::TokM> {
    if 0 <= i && i + 1 < s.len() && s[i + 1] == EQUALS {
        if s[i] == BANG {
            Some(token::TokM::BangEqual)
        } else if s[i] == EQUALS {
            Some(token::TokM::EqualEqual)
        } else if s[i] == LESS {
            Some(token::TokM::LessEqual)
        } else if s[i] == GREATER {
            Some(token::TokM::GreaterEqual)
        } else {
            None
        }
    } else {
        None
    }
}

/// The one-byte punctuation or operator token that byte `b` denotes, if any.
pub open spec fn single_token(b: u8) -> Option<token::TokM> {
    if b == LPAREN {
        Some(token::TokM::LParen)
    } else if b == RPAREN {
        Some(token::TokM::RParen)
    } else if b == LBRACE {
        Some(token::TokM::LBrace)
    } else if b == RBRACE {
        Some(token::TokM::RBrace)
    } else if b == COMMA {
        Some(token::TokM::Comma)
    } else if b == DOT {
        Some(token::TokM::Dot)
    } else if b == MINUS {
        Some(token::TokM::Minus)
    } else if b == PLUS {
        Some(token::TokM::Plus)
    } else if b == SEMICOLON {
        Some(token::TokM::Semicolon)
    } else if b == SLASH {
        Some(token::TokM::Slash)
    } else if b == STAR {
        Some(token::TokM::Star)
    } else if b == BANG {
        Some(token::TokM::Bang)
    } else if b == EQUALS {
        Some(token::TokM::Equal)
    } else if b == LESS {
        Some(token::TokM::Less)
    } else if b == GREATER {
        Some(token::TokM::Greater)
    } else {
        None
    }
}

/// The token an identifier-shaped word denotes: one of the sixteen keywords,
/// or an identifier carrying the word itself.
pub open spec fn word_token(w: Seq<u8>) -> token::TokM {
    if w == seq![97u8, 110u8, 100u8] {  // and
        token::TokM::And
    } else if w == seq![99u8, 108u8, 97u8, 115u8, 115u8] {  // class
        token::TokM::Class
    } else if w == seq![101u8, 108u8, 115u8, 101u8] {  // else
        token::TokM::Else
    } else if w == seq![102u8, 97u8, 108u8, 115u8, 101u8] {  // false
        token::TokM::False
    } else if w == seq![102u8, 117u8, 110u8] {  // fun
        token::TokM::Fun
    } else if w == seq![102u8, 111u8, 114u8] {  // for
        token::TokM::For
    } else if w == seq![105u8, 102u8] {  // if
        token::TokM::If
    } else if w == seq![110u8, 105u8, 108u8] {  // nil
        token::TokM::Nil
    } else if w == seq![111u8, 114u8] {  // or
        token::TokM::Or
    } else if w == seq![112u8, 114u8, 105u8, 110u8, 116u8] {  // print
        token::TokM::Print
    } else if w == seq![114u8, 101u8, 116u8, 117u8, 114u8, 110u8] {  // return
        token::TokM::Return
    } else if w == seq![115u8, 117u8, 112u8, 101u8, 114u8] {  // super
        token::TokM::Super
    } else if w == seq![116u8, 104u8, 105u8, 115u8] {  // this
        token::TokM::This
    } else if w == seq![116u8, 114u8, 117u8, 101u8] {  // true
        token::TokM::True
    } else if w == seq![118u8, 97u8, 114u8] {  // var
        token::TokM::Var
    } else if w == seq![119u8, 104u8, 105u8, 108u8, 101u8] {  // while
        token::TokM::While
    } else {
        token::TokM::Ident(w)
    }
}

/// Whether `w` is one of the sixteen reserved words.
pub open spec fn is_keyword(w: Seq<u8>) -> bool {
    !(word_token(w) is Ident)
}

/// Keywords are always classified as their own tokens, never as plain
/// identifiers; and a word classified as an identifier is carried through
/// unchanged.
pub proof fn lemma_keywords_not_idents(w: Seq<u8>)
    ensures
        is_keyword(w) <==> !(word_token(w) is Ident),
        !is_keyword(w) ==> word_token(w) == token::TokM::Ident(w),
        word_token(seq![112u8, 114u8, 105u8, 110u8, 116u8]) == token::TokM::Print,
        word_token(seq![118u8, 97u8, 114u8]) == token::TokM::Var,
        word_token(seq![116u8, 114u8, 117u8, 101u8]) == token::TokM::True,
        word_token(seq![102u8, 97u8, 108u8, 115u8, 101u8]) == token::TokM::False,
        word_token(seq![110u8, 105u8, 108u8]) == token::TokM::Nil,
{
}

/// A number literal holds at most one decimal point: past a consumed point
/// (`dot`), its extent takes no other, and no two points stand in one
/// extent.
pub proof fn lemma_number_one_dot(s: Seq<u8>, i: int, dot: bool)
    requires
        0 <= i <= s.len(),
    ensures
        forall|j: int, k: int|
            i <= j < k < number_end(s, i, dot) && s[j] == DOT ==> s[k] != DOT,
        dot ==> forall|j: int| i <= j < number_end(s, i, dot) ==> s[j] != DOT,
    decreases s.len() - i,
{
    if i < s.len() && is_number_s(s[i]) {
        lemma_number_one_dot(s, i + 1, dot);
    } else if i < s.len() && s[i] == DOT && !dot {
        lemma_number_one_dot(s, i + 1, true);
    }
}

/// The token for the word `w`: the matching keyword token, or an identifier
/// token that takes `w` as its payload.
pub fn keyword_of(w: Vec<u8>) -> (r: token::T)
    ensures
        r@ == word_token(w@),
{
    let kw_and: Vec<u8> = vec![97u8, 110, 100];
    let kw_class: Vec<u8> = vec![99u8, 108, 97, 115, 115];
    let kw_else: Vec<u8> = vec![101u8, 108, 115, 101];
    let kw_false: Vec<u8> = vec![102u8, 97, 108, 115, 101];
    let kw_fun: Vec<u8> = vec![102u8, 117, 110];
    let kw_for: Vec<u8> = vec![102u8, 111, 114];
    let kw_if: Vec<u8> = vec![105u8, 102];
    let kw_nil: Vec<u8> = vec![110u8, 105, 108];
    let kw_or: Vec<u8> = vec![111u8, 114];
    let kw_print: Vec<u8> = vec![112u8, 114, 105, 110, 116];
    let kw_return: Vec<u8> = vec![114u8, 101, 116, 117, 114, 110];
    let kw_super: Vec<u8> = vec![115u8, 117, 112, 101, 114];
    let kw_this: Vec<u8> = vec![116u8, 104, 105, 115];
    let kw_true: Vec<u8> = vec![116u8, 114, 117, 101];
    let kw_var: Vec<u8> = vec![118u8, 97, 114];
    let kw_while: Vec<u8> = vec![119u8, 104, 105, 108, 101];
    proof {
        assert(kw_and@ =~= seq![97u8, 110u8, 100u8]);
        assert(kw_class@ =~= seq![99u8, 108u8, 97u8, 115u8, 115u8]);
        assert(kw_else@ =~= seq![101u8, 108u8, 115u8, 101u8]);
        assert(kw_false@ =~= seq![102u8, 97u8, 108u8, 115u8, 101u8]);
        assert(kw_fun@ =~= seq![102u8, 117u8, 110u8]);
        assert(kw_for@ =~= seq![102u8, 111u8, 114u8]);
        assert(kw_if@ =~= seq![105u8, 102u8]);
        assert(kw_nil@ =~= seq![110u8, 105u8, 108u8]);
        assert(kw_or@ =~= seq![111u8, 114u8]);
        assert(kw_print@ =~= seq![112u8, 114u8, 105u8, 110u8, 116u8]);
        assert(kw_return@ =~= seq![114u8, 101u8, 116u8, 117u8, 114u8, 110u8]);
        assert(kw_super@ =~= seq![115u8, 117u8, 112u8, 101u8, 114u8]);
        assert(kw_this@ =~= seq![116u8, 104u8, 105u8, 115u8]);
        assert(kw_true@ =~= seq![116u8, 114u8, 117u8, 101u8]);
        assert(kw_var@ =~= seq![118u8, 97u8, 114u8]);
        assert(kw_while@ =~= seq![119u8, 104u8, 105u8, 108u8, 101u8]);
    }
    if crate::bytes::bytes_eq(&w, &kw_and) {
        token::T::And
    } else if crate::bytes::bytes_eq(&w, &kw_class) {
        token::T::Class
    } else if crate::bytes::bytes_eq(&w, &kw_else) {
        token::T::Else
    } else if crate::bytes::bytes_eq(&w, &kw_false) {
        token::T::False
    } else if crate::bytes::bytes_eq(&w, &kw_fun) {
        token::T::Fun
    } else if crate::bytes::bytes_eq(&w, &kw_for) {
        token::T::For
    } else if crate::bytes::bytes_eq(&w, &kw_if) {
        token::T::If
    } else if crate::bytes::bytes_eq(&w, &kw_nil) {
        token::T::Nil
    } else if crate::bytes::bytes_eq(&w, &kw_or) {
        token::T::Or
    } else if crate::bytes::bytes_eq(&w, &kw_print) {
        token::T::Print
    } else if crate::bytes::bytes_eq(&w, &kw_return) {
        token::T::Return
    } else if crate::bytes::bytes_eq(&w, &kw_super) {
        token::T::Super
    } else if crate::bytes::bytes_eq(&w, &kw_this) {
        token::T::This
    } else if crate::bytes::bytes_eq(&w, &kw_true) {
        token::T::True
    } else if crate::bytes::bytes_eq(&w, &kw_var) {
        token::T::Var
    } else if crate::bytes::bytes_eq(&w, &kw_while) {
        token::T::While
    } else {
        token::T::Ident(w)
    }
}

/// The lexer: a cursor over the source bytes that also tracks the row and
/// column of the point it stands on.
pub struct T<'s> {
    text: &'s [u8],
    pos: usize,
    row: usize,
    col: usize,
}

impl<'s> T<'s> {
    /// The source bytes being lexed.
    pub closed spec fn src(&self) -> Seq<u8> {
        self.text@
    }

    /// The cursor's byte offset.
    pub closed spec fn at(&self) -> int {
        self.pos as int
    }

    /// The cursor is in bounds and its row and column agree with its offset.
    pub closed spec fn wf(&self) -> bool {
        &&& self.pos <= self.text@.len()
        &&& self.text@.len() < usize::MAX
        &&& self.row == row_at(self.text@, self.pos as int)
        &&& self.col == col_at(self.text@, self.pos as int)
    }

    /// A lexer standing at the start of `text`.
    pub fn new(text: &'s [u8]) -> (r: T<'s>)
        requires
            text@.len() < usize::MAX,
        ensures
            r.wf(),
            r.src() == text@,
            r.at() == 0,
    {
        T { text, pos: 0, row: 1, col: 1 }
    }

    /// The location of byte offset `index`, read off the cursor's current
    /// row and column; `index` must be the offset the cursor stands on.
    pub fn loc(&self, index: usize) -> (r: span::Loc)
        requires
            self.wf(),
            index as int == self.at(),
        ensures
            r == loc_at(self.src(), self.at()),
    {
        span::Loc { idx: index, row: self.row, col: self.col }
    }

    /// The location of the end of the input.
    pub fn eof(&self) -> (r: span::Loc)
        requires
            self.wf(),
            self.at() == self.src().len(),
        ensures
            r == loc_at(self.src(), self.src().len() as int),
    {
        span::Loc { idx: self.text.len(), row: self.row, col: self.col }
    }

    /// The location and byte under the cursor, or the end-of-input location
    /// and `None`.
    pub fn peek(&self) -> (r: (span::Loc, Option<u8>))
        requires
            self.wf(),
        ensures
            r.0 == loc_at(self.src(), self.at()),
            r.1 == if self.at() < self.src().len() {
                Some(self.src()[self.at()])
            } else {
                None::<u8>
            },
    {
        if self.pos < self.text.len() {
            (self.loc(self.pos), Some(self.text[self.pos]))
        } else {
            (self.eof(), None)
        }
    }

    /// The byte one past the cursor, if any.
    pub fn peeeek(&self) -> (r: Option<u8>)
        requires
            self.wf(),
        ensures
            r == if self.at() + 1 < self.src().len() {
                Some(self.src()[self.at() + 1])
            } else {
                None::<u8>
            },
    {
        if self.pos < self.text.len() && self.pos + 1 < self.text.len() {
            Some(self.text[self.pos + 1])
        } else {
            None
        }
    }

    /// Consume one byte: return its location and value (or the end-of-input
    /// location and `None`), and advance the cursor, its row and its column.
    pub fn next(&mut self) -> (r: (span::Loc, Option<u8>))
        requires
            old(self).wf(),
        ensures
            final(self).wf(),
            final(self).src() == old(self).src(),
            r.0 == loc_at(old(self).src(), old(self).at()),
            old(self).at() < old(self).src().len() ==> {
                &&& final(self).at() == old(self).at() + 1
                &&& r.1 == Some(old(self).src()[old(self).at()])
            },
            old(self).at() >= old(self).src().len() ==> {
                &&& final(self).at() == old(self).at()
                &&& r.1 == None::<u8>
            },
    {
        let (loc, byte) = self.peek();
        match byte {
            None => (),
            Some(b) => {
                proof {
                    lemma_row_col_bounds(self.src(), self.at());
                }
                if b == NL {
                    self.row = self.row + 1;
                    self.col = 1;
                } else if 128 <= b && b < 192 {
                    // A continuation byte stays within the current character.
                } else {
                    self.col = self.col + 1;
                }
                self.pos = self.pos + 1;
            },
        }
        (loc, byte)
    }

    /// Skip past whitespace and comments. Line comments run to the next line
    /// feed; block comments nest and run to the matching closer, or to the
    /// end of the input when left open.
    pub fn skip(&mut self)
        requires
            old(self).wf(),
        ensures
            final(self).wf(),
            final(self).src() == old(self).src(),
            final(self).at() == skip_from(old(self).src(), old(self).at(), SkipState::Ws),
    {
        let ghost goal = skip_from(self.src(), self.at(), SkipState::Ws);
        let mut mode = Mode::Ws;
        let mut depth: usize = 0;
        loop
            invariant
                self.wf(),
                self.src() == old(self).src(),
                old(self).at() <= self.at() <= self.src().len(),
                mode is Block ==> 2 * depth + 2 <= self.at(),
                skip_from(self.src(), self.at(), st_of(mode, depth)) == goal,
            ensures
                self.wf(),
                self.src() == old(self).src(),
                self.at() == goal,
            decreases self.src().len() - self.at(),
        {
            let (_, byte) = self.peek();
            let b = match byte {
                None => { break },
                Some(b) => b,
            };
            match mode {
                Mode::Ws => {
                    if is_whitespace(b) {
                        self.next();
                    } else if b == SLASH {
                        match self.peeeek() {
                            Some(n) if n == SLASH => {
                                self.next();
                                self.next();
                                mode = Mode::Line;
                            },
                            Some(n) if n == STAR => {
                                self.next();
                                self.next();
                                depth = 0;
                                mode = Mode::Block;
                            },
                            _ => { break },
                        }
                    } else {
                        break ;
                    }
                },
                Mode::Line => {
                    if b == NL {
                        mode = Mode::Ws;
                    }
                    self.next();
                },
                Mode::Block => {
                    if b == SLASH {
                        match self.peeeek() {
                            Some(n) if n == STAR => {
                                self.next();
                                self.next();
                                depth = depth + 1;
                            },
                            _ => {
                                self.next();
                            },
                        }
                    } else if b == STAR {
                        match self.peeeek() {
                            Some(n) if n == SLASH => {
                                self.next();
                                self.next();
                                if depth == 0 {
                                    mode = Mode::Ws;
                                } else {
                                    depth = depth - 1;
                                }
                            },
                            _ => {
                                self.next();
                            },
                        }
                    } else {
                        self.next();
                    }
                },
            }
        }
    }

    /// Lex an identifier or keyword: consume the maximal run of identifier
    /// characters and classify the word against the keyword table.
    pub fn lex_ident(&mut self) -> (r: (span::T, token::T))
        requires
            old(self).wf(),
            old(self).at() < old(self).src().len(),
        ensures
            final(self).wf(),
            final(self).src() == old(self).src(),
            final(self).at() == ident_end(old(self).src(), old(self).at() + 1),
            r.0 == span_at(old(self).src(), old(self).at(), final(self).at()),
            r.1@ == word_token(old(self).src().subrange(old(self).at(), final(self).at())),
    {
        let ghost s = self.src();
        let ghost start = self.at();
        let (lo, first) = self.next();
        let mut word: Vec<u8> = Vec::new();
        match first {
            Some(b) => word.push(b),
            None => (),
        }
        proof {
            assert(word@ =~= s.subrange(start, start + 1));
        }
        loop
            invariant
                self.wf(),
                self.src() == s,
                0 <= start < self.at() <= s.len(),
                word@ == s.subrange(start, self.at()),
                ident_end(s, self.at()) == ident_end(s, start + 1),
            ensures
                self.wf(),
                self.src() == s,
                self.at() == ident_end(s, start + 1),
                word@ == s.subrange(start, self.at()),
            decreases s.len() - self.at(),
        {
            let (_, c) = self.peek();
            match c {
                Some(b) if is_ident_tail(b) => {
                    self.next();
                    word.push(b);
                    proof {
                        assert(word@ =~= s.subrange(start, self.at()));
                    }
                },
                _ => { break },
            }
        }
        let (hi, _) = self.peek();
        let tok = keyword_of(word);
        (span::T { lo, hi }, tok)
    }

    /// Lex a number literal: consume the maximal run of digits holding at
    /// most one decimal point, then convert the run's text to a double. A
    /// run that does not denote a double is a malformed-number error.
    pub fn lex_number(&mut self) -> (r: Result<(span::T, token::T), Error>)
        requires
            old(self).wf(),
            old(self).at() < old(self).src().len(),
        ensures
            final(self).wf(),
            final(self).src() == old(self).src(),
            final(self).at() == number_end(
                old(self).src(),
                old(self).at() + 1,
                old(self).src()[old(self).at()] == DOT,
            ),
            ({
                let text = old(self).src().subrange(old(self).at(), final(self).at());
                let sp = span_at(old(self).src(), old(self).at(), final(self).at());
                match num::float_of_text(text) {
                    Some(bits) => r == Ok::<(span::T, token::T), Error>((
                        sp,
                        token::T::Number(bits),
                    )),
                    None => r == Err::<(span::T, token::T), Error>(Error::MalformedNumber(sp)),
                }
            }),
    {
        let ghost s = self.src();
        let ghost start = self.at();
        let (lo, first) = self.next();
        let mut dot = false;
        let mut word: Vec<u8> = Vec::new();
        match first {
            Some(b) => {
                word.push(b);
                if b == DOT {
                    dot = true;
                }
            },
            None => (),
        }
        proof {
            assert(word@ =~= s.subrange(start, start + 1));
        }
        loop
            invariant
                self.wf(),
                self.src() == s,
                0 <= start < self.at() <= s.len(),
                word@ == s.subrange(start, self.at()),
                number_end(s, self.at(), dot) == number_end(s, start + 1, s[start] == DOT),
            ensures
                self.wf(),
                self.src() == s,
                self.at() == number_end(s, start + 1, s[start] == DOT),
                word@ == s.subrange(start, self.at()),
            decreases s.len() - self.at(),
        {
            let (_, c) = self.peek();
            match c {
                Some(b) if is_number(b) => {
                    self.next();
                    word.push(b);
                    proof {
                        assert(word@ =~= s.subrange(start, self.at()));
                    }
                },
                Some(b) if b == DOT && !dot => {
                    self.next();
                    word.push(b);
                    dot = true;
                    proof {
                        assert(word@ =~= s.subrange(start, self.at()));
                    }
                },
                _ => { break },
            }
        }
        let (hi, _) = self.peek();
        let sp = span::T { lo, hi };
        match num::parse_bits(word.as_slice()) {
            Some(bits) => Ok((sp, token::T::Number(bits))),
            None => Err(Error::MalformedNumber(sp)),
        }
    }

    /// Lex a string literal: consume from the opening quote through the next
    /// quote, with no escape processing; the token's payload is the text
    /// between the quotes. When no closing quote comes before the end of the
    /// input, consume to the end and report the whole tail as unterminated.
    pub fn lex_string(&mut self) -> (r: Result<(span::T, token::T), Error>)
        requires
            old(self).wf(),
            old(self).at() < old(self).src().len(),
            old(self).src()[old(self).at()] == QUOTE,
        ensures
            final(self).wf(),
            final(self).src() == old(self).src(),
            ({
                let s = old(self).src();
                let start = old(self).at();
                match string_close(s, start + 1) {
                    Some(c) => {
                        &&& final(self).at() == c + 1
                        &&& r matches Ok(p)
                        &&& p.0 == span_at(s, start, c + 1)
                        &&& p.1@ == token::TokM::Str(s.subrange(start + 1, c))
                    },
                    None => {
                        &&& final(self).at() == s.len()
                        &&& r == Err::<(span::T, token::T), Error>(
                            Error::UnterminatedString(span_at(s, start, s.len() as int)),
                        )
                    },
                }
            }),
    {
        let ghost s = self.src();
        let ghost start = self.at();
        let (lo, _) = self.next();
        let mut buf: Vec<u8> = Vec::new();
        let mut closed = false;
        proof {
            assert(buf@ =~= s.subrange(start + 1, start + 1));
        }
        loop
            invariant_except_break
                !closed,
                buf@ == s.subrange(start + 1, self.at()),
                string_close(s, self.at()) == string_close(s, start + 1),
            invariant
                self.wf(),
                self.src() == s,
                0 <= start < self.at() <= s.len(),
            ensures
                self.wf(),
                self.src() == s,
                match string_close(s, start + 1) {
                    Some(c) => closed && self.at() == c + 1 && buf@ == s.subrange(start + 1, c),
                    None => !closed && self.at() == s.len(),
                },
            decreases s.len() - self.at(),
        {
            let (_, c) = self.peek();
            match c {
                Some(b) if b == QUOTE => {
                    self.next();
                    closed = true;
                    break ;
                },
                Some(b) => {
                    self.next();
                    buf.push(b);
                    proof {
                        assert(buf@ =~= s.subrange(start + 1, self.at()));
                    }
                },
                None => {
                    break ;
                },
            }
        }
        let (hi, _) = self.peek();
        if closed {
            Ok((span::T { lo, hi }, token::T::Str(buf)))
        } else {
            Err(Error::UnterminatedString(span::T { lo, hi }))
        }
    }

    /// Lex a one-byte punctuation or operator token: consume one byte and
    /// pair the given token with its span.
    pub fn lex_single_symbol(&mut self, tok: token::T) -> (r: (span::T, token::T))
        requires
            old(self).wf(),
            old(self).at() < old(self).src().len(),
        ensures
            final(self).wf(),
            final(self).src() == old(self).src(),
            final(self).at() == old(self).at() + 1,
            r.0 == span_at(old(self).src(), old(self).at(), old(self).at() + 1),
            r.1 == tok,
    {
        let (lo, _) = self.next();
        let (hi, _) = self.peek();
        (span::T { lo, hi }, tok)
    }

    /// Lex a two-byte operator token: consume two bytes and pair the given
    /// token with their span.
    pub fn lex_double_symbol(&mut self, tok: token::T) -> (r: (span::T, token::T))
        requires
            old(self).wf(),
            old(self).at() + 1 < old(self).src().len(),
        ensures
            final(self).wf(),
            final(self).src() == old(self).src(),
            final(self).at() == old(self).at() + 2,
            r.0 == span_at(old(self).src(), old(self).at(), old(self).at() + 2),
            r.1 == tok,
    {
        let (lo, _) = self.next();
        let _ = self.next();
        let (hi, _) = self.peek();
        (span::T { lo, hi }, tok)
    }

    /// Produce the next token with its span, `None` once only whitespace and
    /// comments remain, or the error that lexing stops on.
    pub fn next_token(&mut self) -> (r: Option<Result<(span::T, token::T), Error>>)
        requires
            old(self).wf(),
        ensures
            final(self).wf(),
            final(self).src() == old(self).src(),
            old(self).at() <= final(self).at() <= old(self).src().len(),
            match lex_step(old(self).src(), old(self).at()) {
                LexStep::Eof => r is None && final(self).at() == old(self).src().len(),
                LexStep::Tok(sp, t, e) => {
                    &&& r matches Some(Ok(p))
                    &&& p.0 == sp
                    &&& p.1@ == t
                    &&& final(self).at() == e
                },
                LexStep::Fail(err) => r == Some(Err::<(span::T, token::T), Error>(err)),
            },
    {
        proof {
            lemma_skip_bounds(self.src(), self.at(), SkipState::Ws);
        }
        self.skip();
        let ghost s = self.src();
        let ghost j = self.at();
        let (_, byte) = self.peek();
        let b = match byte {
            None => { return None },
            Some(b) => b,
        };
        proof {
            lemma_ident_end_bounds(s, j + 1);
            lemma_number_end_bounds(s, j + 1, s[j] == DOT);
            lemma_string_close_bounds(s, j + 1);
        }
        if is_ident_head(b) {
            Some(Ok(self.lex_ident()))
        } else if is_number(b) {
            match self.lex_number() {
                Ok(p) => Some(Ok(p)),
                Err(e) => Some(Err(e)),
            }
        } else if b == QUOTE {
            match self.lex_string() {
                Ok(p) => Some(Ok(p)),
                Err(e) => Some(Err(e)),
            }
        } else {
            let after_dot_digit = match self.peeeek() {
                Some(n) => is_number(n),
                None => false,
            };
            if b == DOT && after_dot_digit {
                match self.lex_number() {
                    Ok(p) => Some(Ok(p)),
                    Err(e) => Some(Err(e)),
                }
            } else {
                let next_is_equals = match self.peeeek() {
                    Some(n) => n == EQUALS,
                    None => false,
                };
                if b == BANG && next_is_equals {
                    Some(Ok(self.lex_double_symbol(token::T::BangEqual)))
                } else if b == EQUALS && next_is_equals {
                    Some(Ok(self.lex_double_symbol(token::T::EqualEqual)))
                } else if b == LESS && next_is_equals {
                    Some(Ok(self.lex_double_symbol(token::T::LessEqual)))
                } else if b == GREATER && next_is_equals {
                    Some(Ok(self.lex_double_symbol(token::T::GreaterEqual)))
                } else if b == LPAREN {
                    Some(Ok(self.lex_single_symbol(token::T::LParen)))
                } else if b == RPAREN {
                    Some(Ok(self.lex_single_symbol(token::T::RParen)))
                } else if b == LBRACE {
                    Some(Ok(self.lex_single_symbol(token::T::LBrace)))
                } else if b == RBRACE {
                    Some(Ok(self.lex_single_symbol(token::T::RBrace)))
                } else if b == COMMA {
                    Some(Ok(self.lex_single_symbol(token::T::Comma)))
                } else if b == DOT {
                    Some(Ok(self.lex_single_symbol(token::T::Dot)))
                } else if b == MINUS {
                    Some(Ok(self.lex_single_symbol(token::T::Minus)))
                } else if b == PLUS {
                    Some(Ok(self.lex_single_symbol(token::T::Plus)))
                } else if b == SEMICOLON {
                    Some(Ok(self.lex_single_symbol(token::T::Semicolon)))
                } else if b == SLASH {
                    Some(Ok(self.lex_single_symbol(token::T::Slash)))
                } else if b == STAR {
                    Some(Ok(self.lex_single_symbol(token::T::Star)))
                } else if b == BANG {
                    Some(Ok(self.lex_single_symbol(token::T::Bang)))
                } else if b == EQUALS {
                    Some(Ok(self.lex_single_symbol(token::T::Equal)))
                } else if b == LESS {
                    Some(Ok(self.lex_single_symbol(token::T::Less)))
                } else if b == GREATER {
                    Some(Ok(self.lex_single_symbol(token::T::Greater)))
                } else {
                    let (lo, _) = self.next();
                    let (hi, _) = self.peek();
                    Some(Err(Error::UnexpectedChar(span::T { lo, hi }, b)))
                }
            }
        }
    }
}

/// One step of the lexer over the source bytes.
pub enum LexStep {
    /// Only whitespace and comments remain.
    Eof,
    /// The next token: its span, its view, and the offset just past it.
    Tok(span::T, token::TokM, int),
    /// Lexing stops here with this error.
    Fail(Error),
}

/// What a lexer standing at offset `i` of source `s` produces: skip
/// whitespace and comments, then classify by the first byte, taking two-byte
/// operators before their one-byte prefixes.
pub open spec fn lex_step(s: Seq<u8>, i: int) -> LexStep {
    let j = skip_from(s, i, SkipState::Ws);
    if j >= s.len() {
        LexStep::Eof
    } else {
        let b = s[j];
        if is_ident_head_s(b) {
            let e = ident_end(s, j + 1);
            LexStep::Tok(span_at(s, j, e), word_token(s.subrange(j, e)), e)
        } else if is_number_s(b) || (b == DOT && j + 1 < s.len() && is_number_s(s[j + 1])) {
            let e = number_end(s, j + 1, b == DOT);
            match num::float_of_text(s.subrange(j, e)) {
                Some(bits) => LexStep::Tok(span_at(s, j, e), token::TokM::Number(bits), e),
                None => LexStep::Fail(Error::MalformedNumber(span_at(s, j, e))),
            }
        } else if b == QUOTE {
            match string_close(s, j + 1) {
                Some(c) => LexStep::Tok(
                    span_at(s, j, c + 1),
                    token::TokM::Str(s.subrange(j + 1, c)),
                    c + 1,
                ),
                None => LexStep::Fail(Error::UnterminatedString(span_at(s, j, s.len() as int))),
            }
        } else {
            match double_token(s, j) {
                Some(t) => LexStep::Tok(span_at(s, j, j + 2), t, j + 2),
                None => match single_token(b) {
                    Some(t) => LexStep::Tok(span_at(s, j, j + 1), t, j + 1),
                    None => LexStep::Fail(Error::UnexpectedChar(span_at(s, j, j + 1), b)),
                },
            }
        }
    }
}

/// Every produced token starts at the end of the skipped region and ends
/// past where it starts, within the input: the lexer always makes progress.
pub proof fn lemma_lex_step_progress(s: Seq<u8>, i: int)
    requires
        0 <= i <= s.len(),
        s.len() < usize::MAX,
    ensures
        match lex_step(s, i) {
            LexStep::Eof => true,
            LexStep::Tok(sp, t, e) => {
                &&& i <= skip_from(s, i, SkipState::Ws) < e <= s.len()
                &&& sp.lo.idx == skip_from(s, i, SkipState::Ws)
                &&& sp.hi.idx == e
            },
            LexStep::Fail(err) => true,
        },
{
    lemma_skip_bounds(s, i, SkipState::Ws);
    let j = skip_from(s, i, SkipState::Ws);
    if j < s.len() {
        lemma_ident_end_bounds(s, j + 1);
        lemma_number_end_bounds(s, j + 1, s[j] == DOT);
        lemma_string_close_bounds(s, j + 1);
    }
}

/// The tokens of source `s` from offset `i` on, with their spans and in
/// order, or the error that lexing stops on.
pub open spec fn lex_spec(s: Seq<u8>, i: int) -> Result<Seq<(span::T, token::TokM)>, Error>
    decreases s.len() - i,
{
    match lex_step(s, i) {
        LexStep::Eof => Ok(Seq::<(span::T, token::TokM)>::empty()),
        LexStep::Fail(e) => Err(e),
        LexStep::Tok(sp, t, e) => {
            if i < e <= s.len() {
                match lex_spec(s, e) {
                    Ok(rest) => Ok(rest.insert(0, (sp, t))),
                    Err(er) => Err(er),
                }
            } else {
                // A token always ends past its start, so this is never
                // reached; it only keeps the recursion visibly bounded.
                Ok(Seq::<(span::T, token::TokM)>::empty())
            }
        },
    }
}

/// The spans of a successful lexing tile the input: the first token starts
/// where skipping whitespace and comments from the given offset ends, every
/// span runs forwards and stays within the input, and each later token
/// starts exactly where skipping from the previous token's end ends -- so
/// the gaps between the emitted spans hold nothing but whitespace and
/// comments.
pub proof fn lemma_spans_tile(s: Seq<u8>, i: int)
    requires
        0 <= i <= s.len(),
        s.len() < usize::MAX,
    ensures
        match lex_spec(s, i) {
            Ok(l) => {
                &&& (l.len() > 0 ==> l[0].0.lo.idx == skip_from(s, i, SkipState::Ws))
                &&& (l.len() == 0 ==> skip_from(s, i, SkipState::Ws) == s.len())
                &&& forall|k: int|
                    0 <= k < l.len() ==> (#[trigger] l[k].0).lo.idx <= l[k].0.hi.idx <= s.len()
                &&& forall|k: int|
                    0 <= k < l.len() - 1 ==> (#[trigger] l[k + 1].0).lo.idx == skip_from(
                        s,
                        l[k].0.hi.idx as int,
                        SkipState::Ws,
                    )
            },
            Err(e) => true,
        },
    decreases s.len() - i,
{
    lemma_lex_step_progress(s, i);
    lemma_skip_bounds(s, i, SkipState::Ws);
    match lex_step(s, i) {
        LexStep::Eof => {
        },
        LexStep::Tok(sp, t, e) => {
            if i < e <= s.len() {
                lemma_spans_tile(s, e);
                if let Ok(rest) = lex_spec(s, e) {
                    let l = rest.insert(0, (sp, t));
                    assert forall|k: int| 0 <= k < l.len() implies (#[trigger] l[k].0).lo.idx
                        <= l[k].0.hi.idx <= s.len() by {
                        if k >= 1 {
                            assert(l[k] == rest[k - 1]);
                        }
                    }
                    assert forall|k: int| 0 <= k < l.len() - 1 implies (#[trigger] l[k
                        + 1].0).lo.idx == skip_from(s, l[k].0.hi.idx as int, SkipState::Ws) by {
                        if k == 0 {
                            assert(l[0] == (sp, t));
                            assert(l[1] == rest[0]);
                            assert(rest.len() > 0);
                            assert(sp.hi.idx == e);
                            assert(rest[0].0.lo.idx == skip_from(s, e, SkipState::Ws));
                        } else {
                            assert(l[k] == rest[k - 1]);
                            assert(l[k + 1] == rest[k]);
                            assert((rest[(k - 1) + 1].0).lo.idx == skip_from(
                                s,
                                rest[k - 1].0.hi.idx as int,
                                SkipState::Ws,
                            ));
                        }
                    }
                }
            }
        },
        LexStep::Fail(_) => {
        },
    }
}

/// The views of a vector of lexed pairs.
pub open spec fn view_pairs(v: Seq<(span::T, token::T)>) -> Seq<(span::T, token::TokM)> {
    v.map_values(|p: (span::T, token::T)| (p.0, p.1@))
}

impl<'s> T<'s> {
    /// Lex the rest of the input: every remaining token with its span, in
    /// order, or the error that lexing stops on.
    pub fn tokens(&mut self) -> (r: Result<Vec<(span::T, token::T)>, Error>)
        requires
            old(self).wf(),
        ensures
            final(self).wf(),
            final(self).src() == old(self).src(),
            match lex_spec(old(self).src(), old(self).at()) {
                Ok(l) => r matches Ok(v) && view_pairs(v@) == l,
                Err(e) => r == Err::<Vec<(span::T, token::T)>, Error>(e),
            },
    {
        let ghost s = self.src();
        let ghost start = self.at();
        let mut acc: Vec<(span::T, token::T)> = Vec::new();
        proof {
            assert(view_pairs(acc@) =~= Seq::<(span::T, token::TokM)>::empty());
        }
        loop
            invariant
                self.wf(),
                self.src() == s,
                s == old(self).src(),
                start == old(self).at(),
                0 <= start <= self.at() <= s.len(),
                match lex_spec(s, self.at()) {
                    Ok(rest) => lex_spec(s, start) == Ok::<_, Error>(view_pairs(acc@) + rest),
                    Err(e) => lex_spec(s, start) == Err::<Seq<(span::T, token::TokM)>, Error>(e),
                },
            ensures
                self.wf(),
                self.src() == s,
                lex_spec(s, start) == Ok::<_, Error>(view_pairs(acc@)),
            decreases s.len() - self.at(),
        {
            let ghost at0 = self.at();
            proof {
                lemma_lex_step_progress(s, at0);
            }
            match self.next_token() {
                None => {
                    proof {
                        assert(view_pairs(acc@) + Seq::<(span::T, token::TokM)>::empty()
                            =~= view_pairs(acc@));
                    }
                    break ;
                },
                Some(Ok(p)) => {
                    let ghost t = p.1@;
                    let ghost sp = p.0;
                    let ghost acc_old = acc@;
                    acc.push(p);
                    proof {
                        assert(view_pairs(acc@) =~= view_pairs(acc_old).push((sp, t)));
                        if let Ok(rest) = lex_spec(s, self.at()) {
                            assert(view_pairs(acc_old) + rest.insert(0, (sp, t)) =~= view_pairs(
                                acc@,
                            ) + rest);
                        }
                    }
                },
                Some(Err(e)) => {
                    return Err(e);
                },
            }
        }
        Ok(acc)
    }
}

} // verus!
