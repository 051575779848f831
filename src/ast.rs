//! The syntax tree and its mathematical model.
use vstd::prelude::*;

use crate::token::{Token, TokenView};

verus! {

#[derive(Debug)]
pub enum ExprKind {
    Number(i32),
    Ident(String),
    String(String),
    Binary(Token, Box<ExprKind>, Box<ExprKind>),
}

#[derive(Debug)]
pub enum StmtKind {
    Expr(Box<ExprKind>),
    Decl(Token, Token, Box<ExprKind>),
    FuncDecl(Token, Box<ExprKind>),
}

#[derive(Debug)]
pub struct Ast {
    pub stmts: Vec<StmtKind>,
}

/// An expression as a mathematical value.
pub enum Expr {
    Number(int),
    Ident(Seq<char>),
    Text(Seq<char>),
    Binary(TokenView, Box<Expr>, Box<Expr>),
}

/// A statement as a mathematical value.
pub enum Stmt {
    Eval(Expr),
    Decl(TokenView, TokenView, Expr),
    FuncDecl(TokenView, Expr),
}

pub open spec fn expr_model(e: &ExprKind) -> Expr
    decreases e,
{
    match e {
        ExprKind::Number(n) => Expr::Number(*n as int),
        ExprKind::Ident(s) => Expr::Ident(s@),
        ExprKind::String(s) => Expr::Text(s@),
        ExprKind::Binary(op, lhs, rhs) => Expr::Binary(
            op@,
            Box::new(expr_model(lhs)),
            Box::new(expr_model(rhs)),
        ),
    }
}

impl View for ExprKind {
    type V = Expr;

    open spec fn view(&self) -> Expr {
        expr_model(self)
    }
}

impl View for StmtKind {
    type V = Stmt;

    open spec fn view(&self) -> Stmt {
        match self {
            StmtKind::Expr(e) => Stmt::Eval(expr_model(e)),
            StmtKind::Decl(name, ty, e) => Stmt::Decl(name@, ty@, expr_model(e)),
            StmtKind::FuncDecl(name, e) => Stmt::FuncDecl(name@, expr_model(e)),
        }
    }
}

impl View for Ast {
    type V = Seq<Stmt>;

    open spec fn view(&self) -> Seq<Stmt> {
        self.stmts@.map_values(|s: StmtKind| s@)
    }
}

} // verus!
