//! Recursive-descent parser: statements, and expressions on two levels of
//! precedence, both left-associative.
use vstd::prelude::*;
use vstd::string::*;

use crate::ast::{Ast, Expr, ExprKind, Stmt, StmtKind};
use crate::lexer::{Ident, Number, Str};
use crate::rules::{Lit, Or, Rule};
use crate::text::{is_space, lemma_span_end_bounds, skip_space};
use crate::token::{Token, TokenKind, TokenView};
use crate::tokenizer::Tokenizer;

verus! {

pub open spec fn is_digit(c: char) -> bool {
    '0' <= c && c <= '9'
}

/// The value of a string of decimal digits.
pub open spec fn decimal(s: Seq<char>) -> int
    decreases s.len(),
{
    if s.len() == 0 {
        0
    } else {
        decimal(s.drop_last()) * 10 + (s.last() as int - '0' as int)
    }
}

/// The `i32` that a numeral stands for: it has decimal digits only, and fits.
pub open spec fn numeral_value(s: Seq<char>) -> Option<int> {
    if s.len() > 0 && (forall|i: int| 0 <= i < s.len() ==> is_digit(#[trigger] s[i])) && decimal(s)
        <= i32::MAX {
        Some(decimal(s))
    } else {
        None
    }
}

proof fn lemma_decimal_grows(s: Seq<char>, j: int, k: int)
    requires
        0 <= j <= k <= s.len(),
        forall|i: int| 0 <= i < s.len() ==> is_digit(#[trigger] s[i]),
    ensures
        0 <= decimal(s.subrange(0, j)) <= decimal(s.subrange(0, k)),
    decreases k,
{
    if k > 0 {
        assert(s.subrange(0, k).drop_last() == s.subrange(0, k - 1));
        if j < k {
            lemma_decimal_grows(s, j, k - 1);
        } else {
            lemma_decimal_grows(s, j - 1, k - 1);
        }
    }
}

/// Reads a numeral as an `i32`: `None` where it holds anything but decimal
/// digits, or does not fit.
pub fn numeral_to_i32(s: &str) -> (r: Option<i32>)
    ensures
        r matches Some(v) ==> numeral_value(s@) == Some(v as int),
        r is None ==> numeral_value(s@) is None,
{
    let n = s.unicode_len();
    if n == 0 {
        return None;
    }
    let mut v: i32 = 0;
    let mut i: usize = 0;
    while i < n
        invariant
            n == s@.len(),
            i <= n,
            forall|j: int| 0 <= j < i ==> is_digit(#[trigger] s@[j]),
            v as int == decimal(s@.subrange(0, i as int)),
        decreases n - i,
    {
        let c = s.get_char(i);
        proof {
            assert(s@.subrange(0, i + 1).drop_last() == s@.subrange(0, i as int));
        }
        if c < '0' || c > '9' {
            return None;
        }
        let d = (c as u32 - '0' as u32) as i32;
        match v.checked_mul(10) {
            Some(t) => match t.checked_add(d) {
                Some(u) => {
                    v = u;
                },
                None => {
                    proof {
                        if forall|j: int| 0 <= j < s@.len() ==> is_digit(#[trigger] s@[j]) {
                            lemma_decimal_grows(s@, i + 1, n as int);
                            assert(s@.subrange(0, n as int) == s@);
                        }
                    }
                    return None;
                },
            },
            None => {
                proof {
                    if forall|j: int| 0 <= j < s@.len() ==> is_digit(#[trigger] s@[j]) {
                        lemma_decimal_grows(s@, i + 1, n as int);
                        assert(s@.subrange(0, n as int) == s@);
                    }
                }
                return None;
            },
        }
        i = i + 1;
    }
    proof {
        assert(s@.subrange(0, n as int) == s@);
    }
    Some(v)
}

/// An expression at `pos`: a sum of products.
pub open spec fn expr_at(t: Seq<char>, w: Seq<Seq<char>>, pos: int) -> Option<(Expr, int)>
    decreases t.len() - pos, 5nat,
{
    sum_at(t, w, pos)
}

/// `MulExpr (('+' | '-') MulExpr)*`, grouped from the left.
pub open spec fn sum_at(t: Seq<char>, w: Seq<Seq<char>>, pos: int) -> Option<(Expr, int)>
    decreases t.len() - pos, 4nat,
{
    match product_at(t, w, pos) {
        Some((lhs, end)) => if pos <= end <= t.len() {
            sum_rest(t, w, lhs, end)
        } else {
            None
        },
        None => None,
    }
}

/// Continues a sum whose terms so far make `lhs`, at `pos`.
pub open spec fn sum_rest(t: Seq<char>, w: Seq<Seq<char>>, lhs: Expr, pos: int) -> Option<(Expr, int)>
    decreases t.len() - pos, 3nat,
{
    match Or(Lit("+"), Lit("-")).outcome(t, w, pos) {
        None => Some((lhs, pos)),
        Some((op, mid)) => if pos < mid <= t.len() {
            match product_at(t, w, mid) {
                Some((rhs, end)) => if mid <= end <= t.len() {
                    sum_rest(t, w, Expr::Binary(op, Box::new(lhs), Box::new(rhs)), end)
                } else {
                    None
                },
                None => None,
            }
        } else {
            None
        },
    }
}

/// `Primary (('*' | '/') Primary)*`, grouped from the left.
pub open spec fn product_at(t: Seq<char>, w: Seq<Seq<char>>, pos: int) -> Option<(Expr, int)>
    decreases t.len() - pos, 2nat,
{
    match primary_at(t, w, pos) {
        Some((lhs, end)) => if pos <= end <= t.len() {
            product_rest(t, w, lhs, end)
        } else {
            None
        },
        None => None,
    }
}

/// Continues a product whose factors so far make `lhs`, at `pos`.
pub open spec fn product_rest(t: Seq<char>, w: Seq<Seq<char>>, lhs: Expr, pos: int) -> Option<(Expr, int)>
    decreases t.len() - pos, 1nat,
{
    match Or(Lit("*"), Lit("/")).outcome(t, w, pos) {
        None => Some((lhs, pos)),
        Some((op, mid)) => if pos < mid <= t.len() {
            match primary_at(t, w, mid) {
                Some((rhs, end)) => if mid <= end <= t.len() {
                    product_rest(t, w, Expr::Binary(op, Box::new(lhs), Box::new(rhs)), end)
                } else {
                    None
                },
                None => None,
            }
        } else {
            None
        },
    }
}

/// A number, a name, a string, or an expression in parentheses.
pub open spec fn primary_at(t: Seq<char>, w: Seq<Seq<char>>, pos: int) -> Option<(Expr, int)>
    decreases t.len() - pos, 0nat,
{
    match Number.outcome(t, w, pos) {
        Some((tok, end)) => match numeral_value(tok.literal) {
            Some(v) => Some((Expr::Number(v), end)),
            None => None,
        },
        None => match Ident.outcome(t, w, pos) {
            Some((tok, end)) => Some((Expr::Ident(tok.literal), end)),
            None => match Str.outcome(t, w, pos) {
                Some((tok, end)) => Some((Expr::Text(tok.literal), end)),
                None => match Lit("(").outcome(t, w, pos) {
                    Some((_, mid)) => if pos < mid <= t.len() {
                        match expr_at(t, w, mid) {
                            Some((e, after)) => match Lit(")").outcome(t, w, after) {
                                Some((_, end)) => Some((e, end)),
                                None => None,
                            },
                            None => None,
                        }
                    } else {
                        None
                    },
                    None => None,
                },
            },
        },
    }
}

/// A one-character literal, when it matches, ends past `pos`.
proof fn lemma_lit_advances(t: Seq<char>, w: Seq<Seq<char>>, pos: int, a: &'static str)
    requires
        0 <= pos <= t.len(),
        a@.len() == 1,
    ensures
        Lit(a).outcome(t, w, pos) matches Some((_, end)) ==> pos < end <= t.len(),
{
    lemma_span_end_bounds(t, pos, |c: char| is_space(c));
}

/// Either of two one-character literals, when one matches, ends past `pos`.
proof fn lemma_choice_advances(t: Seq<char>, w: Seq<Seq<char>>, pos: int, a: &'static str, b: &'static str)
    requires
        0 <= pos <= t.len(),
        a@.len() == 1,
        b@.len() == 1,
    ensures
        Or(Lit(a), Lit(b)).outcome(t, w, pos) matches Some((_, end)) ==> pos < end <= t.len(),
{
    lemma_span_end_bounds(t, pos, |c: char| is_space(c));
    let s = skip_space(t, pos);
    lemma_lit_advances(t, w, s, a);
    lemma_lit_advances(t, w, pos, b);
    if let Some((_, e)) = Lit(a).outcome(t, w, s) {
        lemma_span_end_bounds(t, e, |c: char| is_space(c));
    }
}

/// The model of an optional expression.
pub open spec fn expr_view(r: Option<ExprKind>) -> Option<Expr> {
    match r {
        Some(x) => Some(x@),
        None => None,
    }
}

/// A statement at `pos`: it starts with a name (a declaration, or the bare
/// name), or is an expression. Statements led by a keyword, and definitions,
/// are not part of the language yet and never match.
pub open spec fn stmt_at(t: Seq<char>, w: Seq<Seq<char>>, pos: int) -> Option<(Stmt, int)> {
    match Ident.outcome(t, w, pos) {
        None => match expr_at(t, w, pos) {
            Some((e, end)) => Some((Stmt::Eval(e), end)),
            None => None,
        },
        Some((name, end)) => match name.kind {
            TokenKind::Keyword => None,
            TokenKind::Ident => ident_stmt_at(t, w, name, end),
            _ => Some((Stmt::Eval(Expr::Ident(name.literal)), end)),
        },
    }
}

/// What follows a leading `name` at `pos`: `':'` and a declaration, `'::'` and a
/// definition, or nothing, and the name stands alone.
pub open spec fn ident_stmt_at(t: Seq<char>, w: Seq<Seq<char>>, name: TokenView, pos: int) -> Option<(Stmt, int)> {
    match Lit(":").outcome(t, w, pos) {
        Some((_, mid)) => decl_at(t, w, name, mid),
        None => match Lit("::").outcome(t, w, pos) {
            Some(_) => None,
            None => Some((Stmt::Eval(Expr::Ident(name.literal)), pos)),
        },
    }
}

/// `Type '=' Expr`, declaring `name`.
pub open spec fn decl_at(t: Seq<char>, w: Seq<Seq<char>>, name: TokenView, pos: int) -> Option<(Stmt, int)> {
    match Ident.outcome(t, w, pos) {
        Some((ty, mid)) => match Lit("=").outcome(t, w, mid) {
            Some((_, after)) => match expr_at(t, w, after) {
                Some((e, end)) => Some((Stmt::Decl(name, ty, e), end)),
                None => None,
            },
            None => None,
        },
        None => None,
    }
}

/// The statements from `pos` on, and whether reading stopped at a statement
/// that a line break does not follow. Reading stops at the end of the text,
/// where no statement matches, or where a statement is not followed by a line
/// break or the end.
pub open spec fn program_at(t: Seq<char>, w: Seq<Seq<char>>, pos: int) -> (Seq<Stmt>, bool)
    decreases t.len() - pos,
{
    if pos < 0 || pos >= t.len() {
        (Seq::empty(), false)
    } else {
        match stmt_at(t, w, pos) {
            None => (Seq::empty(), false),
            Some((st, end)) => if end < t.len() && t[end] != '\n' {
                (seq![st], true)
            } else if pos < end <= t.len() {
                (seq![st] + program_at(t, w, end).0, program_at(t, w, end).1)
            } else {
                (seq![st], false)
            },
        }
    }
}

/// The reserved words of the language.
pub open spec fn reserved() -> Seq<Seq<char>> {
    seq![
        "if"@, "else"@, "while"@, "for"@, "return"@, "break"@, "continue"@, "type"@, "fn"@,
    ]
}

/// The model of an optional statement.
pub open spec fn stmt_view(r: Option<StmtKind>) -> Option<Stmt> {
    match r {
        Some(x) => Some(x@),
        None => None,
    }
}

pub struct Parser {
    pub state: Tokenizer,
}

impl Parser {
    pub fn new(input: &str) -> (r: Self)
        requires
            input@.len() < usize::MAX,
        ensures
            r.state.wf(),
            r.text() == input@,
            r.state.pos == 0,
            r.state.stack@.len() == 0,
            r.words() == reserved(),
    {
        let keywords = vec!["if", "else", "while", "for", "return", "break", "continue", "type", "fn"];
        let p = Parser { state: Tokenizer::new(input, keywords) };
        proof {
            assert(p.words() =~= reserved());
        }
        p
    }

    /// Parses statements from the cursor on, and tells whether reading stopped
    /// at a statement that no line break follows.
    pub fn parse_program(&mut self) -> (r: (Ast, bool))
        requires
            old(self).state.wf(),
        ensures
            final(self).state.wf(),
            final(self).state.same_source(&old(self).state),
            (r.0@, r.1) == program_at(old(self).text(), old(self).words(), old(self).state.pos as int),
    {
        let ghost t = self.text();
        let ghost w = self.words();
        let ghost start = self.state.pos as int;
        let mut stmts: Vec<StmtKind> = Vec::new();
        let mut stopped = false;
        loop
            invariant_except_break
                !stopped,
                program_at(t, w, start) == (
                    stmts@.map_values(|s: StmtKind| s@) + program_at(t, w, self.state.pos as int).0,
                    program_at(t, w, self.state.pos as int).1,
                ),
            invariant
                self.state.wf(),
                self.text() == t,
                self.words() == w,
                self.state.same_source(&old(self).state),
                start == old(self).state.pos,
            ensures
                self.state.wf(),
                self.state.same_source(&old(self).state),
                program_at(t, w, start) == (stmts@.map_values(|s: StmtKind| s@), stopped),
            decreases t.len() - self.state.pos,
        {
            let here = self.state.pos;
            let ghost before = stmts@.map_values(|s: StmtKind| s@);
            if self.state.eof() {
                proof {
                    assert(before + Seq::<Stmt>::empty() =~= before);
                }
                break;
            }
            let stmt = match self.parse_stmt() {
                Some(st) => st,
                None => {
                    proof {
                        assert(before + Seq::<Stmt>::empty() =~= before);
                    }
                    break;
                },
            };
            let ghost seen = stmt@;
            stmts.push(stmt);
            proof {
                assert(stmts@.map_values(|s: StmtKind| s@) =~= before.push(seen));
            }
            if let Some(c) = self.state.peek() {
                if c != '\n' {
                    stopped = true;
                    proof {
                        assert(before + seq![seen] =~= before.push(seen));
                    }
                    break;
                }
            }
            if self.state.pos <= here {
                proof {
                    assert(before + seq![seen] =~= before.push(seen));
                }
                break;
            }
            proof {
                assert(before + (seq![seen] + program_at(t, w, self.state.pos as int).0) =~= before.push(seen) + program_at(t, w, self.state.pos as int).0);
            }
        }
        (Ast { stmts }, stopped)
    }

    /// Parses statements from the cursor on.
    pub fn parse(&mut self) -> (r: Ast)
        requires
            old(self).state.wf(),
        ensures
            final(self).state.wf(),
            r@ == program_at(old(self).text(), old(self).words(), old(self).state.pos as int).0,
    {
        self.parse_program().0
    }

    fn parse_stmt(&mut self) -> (r: Option<StmtKind>)
        requires
            old(self).state.wf(),
        ensures
            final(self).stepped(old(self), stmt_at(old(self).text(), old(self).words(), old(self).state.pos as int), stmt_view(r)),
    {
        self.state.push();
        proof {
            assert(self.state.stack@.drop_last() == old(self).state.stack@);
        }
        let token = match Ident.parse(&mut self.state) {
            Some(tok) => tok,
            None => {
                self.state.pop();
                return self.parse_expr_stmt();
            },
        };
        let r = match token.kind {
            TokenKind::Keyword => self.parse_keyword_stmt(token),
            TokenKind::Ident => self.parse_ident_stmt(token),
            _ => Some(StmtKind::Expr(Box::new(ExprKind::Ident(token.literal)))),
        };
        if r.is_some() {
            self.state.commit();
        } else {
            self.state.pop();
        }
        r
    }

    fn parse_keyword_stmt(&mut self, token: Token) -> (r: Option<StmtKind>)
        ensures
            r is None,
            *final(self) == *old(self),
    {
        None
    }

    fn parse_ident_stmt(&mut self, token: Token) -> (r: Option<StmtKind>)
        requires
            old(self).state.wf(),
        ensures
            final(self).stepped(old(self), ident_stmt_at(old(self).text(), old(self).words(), token@, old(self).state.pos as int), stmt_view(r)),
    {
        self.state.push();
        proof {
            assert(self.state.stack@.drop_last() == old(self).state.stack@);
        }
        if let Some(_) = Lit(":").parse(&mut self.state) {
            let r = self.parse_decl_stmt(token);
            if r.is_some() {
                self.state.commit();
            } else {
                self.state.pop();
            }
            return r;
        }
        if let Some(_) = Lit("::").parse(&mut self.state) {
            let r = self.parse_def_stmt(token);
            self.state.pop();
            return r;
        }
        self.state.commit();
        Some(StmtKind::Expr(Box::new(ExprKind::Ident(token.literal))))
    }

    /// Definitions (`name :: fn ...`, `name :: type ...`) are not part of the
    /// language yet: this reads the word after `::` and declines.
    fn parse_def_stmt(&mut self, token: Token) -> (r: Option<StmtKind>)
        requires
            old(self).state.wf(),
        ensures
            r is None,
            final(self).state.wf(),
            final(self).state.same_source(&old(self).state),
            final(self).state.stack@ == old(self).state.stack@,
    {
        let _keyword = Ident.parse(&mut self.state);
        None
    }

    fn parse_decl_stmt(&mut self, token: Token) -> (r: Option<StmtKind>)
        requires
            old(self).state.wf(),
        ensures
            final(self).stepped(old(self), decl_at(old(self).text(), old(self).words(), token@, old(self).state.pos as int), stmt_view(r)),
    {
        self.state.push();
        proof {
            assert(self.state.stack@.drop_last() == old(self).state.stack@);
        }
        if let Some(ty) = Ident.parse(&mut self.state) {
            if let Some(_) = Lit("=").parse(&mut self.state) {
                if let Some(e) = self.parse_expr() {
                    self.state.commit();
                    return Some(StmtKind::Decl(token, ty, Box::new(e)));
                }
            }
        }
        self.state.pop();
        None
    }

    fn parse_expr_stmt(&mut self) -> (r: Option<StmtKind>)
        requires
            old(self).state.wf(),
        ensures
            final(self).stepped(old(self), match expr_at(old(self).text(), old(self).words(), old(self).state.pos as int) {
                Some((e, end)) => Some((Stmt::Eval(e), end)),
                None => None,
            }, stmt_view(r)),
    {
        match self.parse_expr() {
            Some(e) => Some(StmtKind::Expr(Box::new(e))),
            None => None,
        }
    }

    /// The text being parsed.
    pub open spec fn text(&self) -> Seq<char> {
        self.state.input@
    }

    /// The reserved words.
    pub open spec fn words(&self) -> Seq<Seq<char>> {
        self.state.words()
    }

    /// What a parsing step did: the text and the checkpoints are as they were,
    /// and the cursor moved on by what `model` says was consumed, or stayed.
    pub open spec fn stepped<T>(&self, before: &Parser, model: Option<(T, int)>, r: Option<T>) -> bool {
        &&& self.state.wf()
        &&& self.state.same_source(&before.state)
        &&& self.state.stack@ == before.state.stack@
        &&& before.state.pos <= self.state.pos
        &&& model == match r {
            Some(x) => Some((x, self.state.pos as int)),
            None => None::<(T, int)>,
        }
        &&& r is None ==> self.state.pos == before.state.pos
    }

    fn parse_expr(&mut self) -> (r: Option<ExprKind>)
        requires
            old(self).state.wf(),
        ensures
            final(self).stepped(old(self), expr_at(old(self).text(), old(self).words(), old(self).state.pos as int), expr_view(r)),
        decreases old(self).state.input@.len() - old(self).state.pos, 5nat,
    {
        self.parse_add_expr()
    }

    fn parse_add_expr(&mut self) -> (r: Option<ExprKind>)
        requires
            old(self).state.wf(),
        ensures
            final(self).stepped(old(self), sum_at(old(self).text(), old(self).words(), old(self).state.pos as int), expr_view(r)),
        decreases old(self).state.input@.len() - old(self).state.pos, 4nat,
    {
        let ghost t = self.text();
        let ghost w = self.words();
        let ghost start = self.state.pos as int;
        self.state.push();
        proof {
            assert(self.state.stack@.drop_last() == old(self).state.stack@);
        }
        let mut lhs = match self.parse_mul_expr() {
            Some(e) => e,
            None => {
                self.state.pop();
                return None;
            },
        };
        loop
            invariant
                self.state.wf(),
                self.text() == t,
                self.words() == w,
                self.state.same_source(&old(self).state),
                self.state.stack@ == old(self).state.stack@.push((old(self).state.pos, old(self).state.location)),
                start == old(self).state.pos,
                start <= self.state.pos,
                sum_at(t, w, start) == sum_rest(t, w, lhs@, self.state.pos as int),
            ensures
                self.state.wf(),
                self.state.same_source(&old(self).state),
                self.state.stack@ == old(self).state.stack@.push((old(self).state.pos, old(self).state.location)),
                start <= self.state.pos,
                sum_at(t, w, start) == Some((lhs@, self.state.pos as int)),
            decreases t.len() - self.state.pos,
        {
            let ghost here = self.state.pos as int;
            proof {
                reveal_strlit("+");
                reveal_strlit("-");
                lemma_choice_advances(t, w, here, "+", "-");
            }
            let op = match Or(Lit("+"), Lit("-")).parse(&mut self.state) {
                Some(op) => op,
                None => {
                    proof {
                        assert(sum_rest(t, w, lhs@, here) == Some((lhs@, here)));
                    }
                    break;
                },
            };
            let rhs = match self.parse_mul_expr() {
                Some(e) => e,
                None => {
                    proof {
                        assert(sum_rest(t, w, lhs@, here) is None);
                        assert(old(self).state.stack@.push((old(self).state.pos, old(self).state.location)).drop_last() == old(self).state.stack@);
                    }
                    self.state.pop();
                    return None;
                },
            };
            let ghost prev = lhs@;
            lhs = ExprKind::Binary(op, Box::new(lhs), Box::new(rhs));
            proof {
                assert(lhs@ == Expr::Binary(op@, Box::new(prev), Box::new(rhs@)));
                assert(sum_rest(t, w, prev, here) == sum_rest(t, w, lhs@, self.state.pos as int));
            }
        }
        proof {
            assert(old(self).state.stack@.push((old(self).state.pos, old(self).state.location)).drop_last() == old(self).state.stack@);
        }
        self.state.commit();
        Some(lhs)
    }

    fn parse_mul_expr(&mut self) -> (r: Option<ExprKind>)
        requires
            old(self).state.wf(),
        ensures
            final(self).stepped(old(self), product_at(old(self).text(), old(self).words(), old(self).state.pos as int), expr_view(r)),
        decreases old(self).state.input@.len() - old(self).state.pos, 2nat,
    {
        let ghost t = self.text();
        let ghost w = self.words();
        let ghost start = self.state.pos as int;
        self.state.push();
        proof {
            assert(self.state.stack@.drop_last() == old(self).state.stack@);
        }
        let mut lhs = match self.parse_primary_expr() {
            Some(e) => e,
            None => {
                self.state.pop();
                return None;
            },
        };
        loop
            invariant
                self.state.wf(),
                self.text() == t,
                self.words() == w,
                self.state.same_source(&old(self).state),
                self.state.stack@ == old(self).state.stack@.push((old(self).state.pos, old(self).state.location)),
                start == old(self).state.pos,
                start <= self.state.pos,
                product_at(t, w, start) == product_rest(t, w, lhs@, self.state.pos as int),
            ensures
                self.state.wf(),
                self.state.same_source(&old(self).state),
                self.state.stack@ == old(self).state.stack@.push((old(self).state.pos, old(self).state.location)),
                start <= self.state.pos,
                product_at(t, w, start) == Some((lhs@, self.state.pos as int)),
            decreases t.len() - self.state.pos,
        {
            let ghost here = self.state.pos as int;
            proof {
                reveal_strlit("*");
                reveal_strlit("/");
                lemma_choice_advances(t, w, here, "*", "/");
            }
            let op = match Or(Lit("*"), Lit("/")).parse(&mut self.state) {
                Some(op) => op,
                None => {
                    proof {
                        assert(product_rest(t, w, lhs@, here) == Some((lhs@, here)));
                    }
                    break;
                },
            };
            let rhs = match self.parse_primary_expr() {
                Some(e) => e,
                None => {
                    proof {
                        assert(product_rest(t, w, lhs@, here) is None);
                        assert(old(self).state.stack@.push((old(self).state.pos, old(self).state.location)).drop_last() == old(self).state.stack@);
                    }
                    self.state.pop();
                    return None;
                },
            };
            let ghost prev = lhs@;
            lhs = ExprKind::Binary(op, Box::new(lhs), Box::new(rhs));
            proof {
                assert(lhs@ == Expr::Binary(op@, Box::new(prev), Box::new(rhs@)));
                assert(product_rest(t, w, prev, here) == product_rest(t, w, lhs@, self.state.pos as int));
            }
        }
        proof {
            assert(old(self).state.stack@.push((old(self).state.pos, old(self).state.location)).drop_last() == old(self).state.stack@);
        }
        self.state.commit();
        Some(lhs)
    }

    fn parse_primary_expr(&mut self) -> (r: Option<ExprKind>)
        requires
            old(self).state.wf(),
        ensures
            final(self).stepped(old(self), primary_at(old(self).text(), old(self).words(), old(self).state.pos as int), expr_view(r)),
        decreases old(self).state.input@.len() - old(self).state.pos, 0nat,
    {
        let ghost t = self.text();
        let ghost w = self.words();
        self.state.push();
        proof {
            assert(self.state.stack@.drop_last() == old(self).state.stack@);
        }
        if let Some(token) = Number.parse(&mut self.state) {
            if let Some(v) = numeral_to_i32(token.literal.as_str()) {
                self.state.commit();
                return Some(ExprKind::Number(v));
            }
            self.state.pop();
            return None;
        }
        if let Some(token) = Ident.parse(&mut self.state) {
            self.state.commit();
            return Some(ExprKind::Ident(token.literal));
        }
        if let Some(token) = Str.parse(&mut self.state) {
            self.state.commit();
            return Some(ExprKind::String(token.literal));
        }
        proof {
            reveal_strlit("(");
            lemma_lit_advances(t, w, old(self).state.pos as int, "(");
        }
        if let Some(_) = Lit("(").parse(&mut self.state) {
            if let Some(expr) = self.parse_expr() {
                if let Some(_) = Lit(")").parse(&mut self.state) {
                    self.state.commit();
                    return Some(expr);
                }
            }
        }
        self.state.pop();
        None
    }
}

} // verus!
