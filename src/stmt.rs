//! Statements: a closed set of node kinds, each owning its children.
use vstd::prelude::*;

use crate::expr::{Expr, ExprView};
use crate::token::{Token, TokenView};

verus! {

pub enum Stmt {
    Block { statements: Vec<Stmt> },
    Expression { expression: Expr },
    If { condition: Expr, then_branch: Box<Stmt>, else_branch: Option<Box<Stmt>> },
    Print { expression: Expr },
    While { condition: Expr, body: Box<Stmt> },
    Var { name: Token, initializer: Option<Expr> },
}

/// A statement as mathematics sees it.
pub enum StmtView {
    Block(Seq<StmtView>),
    Expression(ExprView),
    If(ExprView, Box<StmtView>, Option<Box<StmtView>>),
    Print(ExprView),
    While(ExprView, Box<StmtView>),
    Var(TokenView, Option<ExprView>),
}

/// The views of a statement sequence.
pub open spec fn models(stmts: Seq<Stmt>) -> Seq<StmtView> {
    stmts.map_values(|s: Stmt| s.model())
}

impl Stmt {
    pub open spec fn model(&self) -> StmtView
        decreases self,
    {
        match self {
            Stmt::Block { statements } => StmtView::Block(
                Seq::new(
                    statements@.len(),
                    |i: int|
                        if 0 <= i < statements@.len() {
                            statements@[i].model()
                        } else {
                            StmtView::Block(seq![])
                        },
                ),
            ),
            Stmt::Expression { expression } => StmtView::Expression(expression.model()),
            Stmt::If { condition, then_branch, else_branch } => StmtView::If(
                condition.model(),
                Box::new(then_branch.model()),
                match else_branch {
                    Some(b) => Some(Box::new(b.model())),
                    None => None,
                },
            ),
            Stmt::Print { expression } => StmtView::Print(expression.model()),
            Stmt::While { condition, body } => StmtView::While(
                condition.model(),
                Box::new(body.model()),
            ),
            Stmt::Var { name, initializer } => StmtView::Var(
                name@,
                match initializer {
                    Some(e) => Some(e.model()),
                    None => None,
                },
            ),
        }
    }

    /// Every expression inside is well formed.
    pub open spec fn wf(&self) -> bool
        decreases self,
    {
        match self {
            Stmt::Block { statements } => forall|i: int|
                0 <= i < statements@.len() ==> (#[trigger] statements@[i]).wf(),
            Stmt::Expression { expression } => expression.wf(),
            Stmt::If { condition, then_branch, else_branch } => condition.wf() && then_branch.wf()
                && match else_branch {
                Some(e) => e.wf(),
                None => true,
            },
            Stmt::Print { expression } => expression.wf(),
            Stmt::While { condition, body } => condition.wf() && body.wf(),
            Stmt::Var { name, initializer } => match initializer {
                Some(e) => e.wf(),
                None => true,
            },
        }
    }
}

} // verus!
