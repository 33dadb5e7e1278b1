//! Expressions: a closed set of node kinds, each owning its children.
use vstd::prelude::*;

use crate::token::{Literal, Token, TokenType, TokenView, Val};

verus! {

pub enum Expr {
    /// Assignment is an expression: it evaluates to the assigned value, so
    /// `a = b = 2` assigns both.
    Assign { name: Token, value: Box<Expr> },
    Binary { left: Box<Expr>, operator: Token, right: Box<Expr> },
    Grouping { expression: Box<Expr> },
    Literal { value: Literal },
    Logical { left: Box<Expr>, operator: Token, right: Box<Expr> },
    Unary { operator: Token, right: Box<Expr> },
    Variable { name: Token },
}

/// An expression as mathematics sees it.
pub enum ExprView {
    Assign(TokenView, Box<ExprView>),
    Binary(Box<ExprView>, TokenView, Box<ExprView>),
    Grouping(Box<ExprView>),
    Literal(Val),
    Logical(Box<ExprView>, TokenView, Box<ExprView>),
    Unary(TokenView, Box<ExprView>),
    Variable(TokenView),
}

/// The operators of binary nodes.
pub open spec fn is_binary_operator(k: TokenType) -> bool {
    match k {
        TokenType::BangEqual | TokenType::EqualEqual | TokenType::Greater
        | TokenType::GreaterEqual | TokenType::Less | TokenType::LessEqual | TokenType::Minus
        | TokenType::Plus | TokenType::Slash | TokenType::Star => true,
        _ => false,
    }
}

/// The operators of logical nodes.
pub open spec fn is_logical_operator(k: TokenType) -> bool {
    k == TokenType::And || k == TokenType::Or
}

/// The operators of unary nodes.
pub open spec fn is_unary_operator(k: TokenType) -> bool {
    k == TokenType::Bang || k == TokenType::Minus
}

impl Expr {
    pub open spec fn model(&self) -> ExprView
        decreases self,
    {
        match self {
            Expr::Assign { name, value } => ExprView::Assign(name@, Box::new(value.model())),
            Expr::Binary { left, operator, right } => ExprView::Binary(
                Box::new(left.model()),
                operator@,
                Box::new(right.model()),
            ),
            Expr::Grouping { expression } => ExprView::Grouping(Box::new(expression.model())),
            Expr::Literal { value } => ExprView::Literal(value@),
            Expr::Logical { left, operator, right } => ExprView::Logical(
                Box::new(left.model()),
                operator@,
                Box::new(right.model()),
            ),
            Expr::Unary { operator, right } => ExprView::Unary(operator@, Box::new(right.model())),
            Expr::Variable { name } => ExprView::Variable(name@),
        }
    }

    /// Every operator is one that its node kind allows, and every number
    /// literal is well formed: the trees that the parser builds.
    pub open spec fn wf(&self) -> bool
        decreases self,
    {
        match self {
            Expr::Assign { name, value } => value.wf(),
            Expr::Binary { left, operator, right } => is_binary_operator(operator.type_)
                && left.wf() && right.wf(),
            Expr::Grouping { expression } => expression.wf(),
            Expr::Literal { value } => value@.wf(),
            Expr::Logical { left, operator, right } => is_logical_operator(operator.type_)
                && left.wf() && right.wf(),
            Expr::Unary { operator, right } => is_unary_operator(operator.type_) && right.wf(),
            Expr::Variable { name } => true,
        }
    }
}

/// One operation per node kind, dispatched by `accept_expr`. What each
/// operation does is stated by the implementing type through the `*_done`
/// spec functions: `before.x_done(after, fields, r)` holds when visiting a
/// node of kind `x` with those fields took the visitor from `before` to
/// `after` and returned `r`.
pub trait ExprVisitor<T, E> {
    spec fn assign_done(&self, after: &Self, name: Token, value: Expr, r: Result<T, E>) -> bool;

    spec fn binary_done(
        &self,
        after: &Self,
        left: Expr,
        operator: Token,
        right: Expr,
        r: Result<T, E>,
    ) -> bool;

    spec fn grouping_done(&self, after: &Self, expression: Expr, r: Result<T, E>) -> bool;

    spec fn literal_done(&self, after: &Self, value: Literal, r: Result<T, E>) -> bool;

    spec fn logical_done(
        &self,
        after: &Self,
        left: Expr,
        operator: Token,
        right: Expr,
        r: Result<T, E>,
    ) -> bool;

    spec fn unary_done(&self, after: &Self, operator: Token, right: Expr, r: Result<T, E>) -> bool;

    spec fn variable_done(&self, after: &Self, name: Token, r: Result<T, E>) -> bool;

    fn visit_assign_expr(&mut self, name: &Token, value: &Expr) -> (r: Result<T, E>)
        requires
            value.wf(),
        ensures
            old(self).assign_done(final(self), *name, *value, r),
    ;

    fn visit_binary_expr(&mut self, left: &Expr, operator: &Token, right: &Expr) -> (r: Result<T, E>)
        requires
            left.wf(),
            right.wf(),
            is_binary_operator(operator.type_),
        ensures
            old(self).binary_done(final(self), *left, *operator, *right, r),
    ;

    fn visit_grouping_expr(&mut self, expression: &Expr) -> (r: Result<T, E>)
        requires
            expression.wf(),
        ensures
            old(self).grouping_done(final(self), *expression, r),
    ;

    fn visit_literal_expr(&mut self, value: &Literal) -> (r: Result<T, E>)
        requires
            value@.wf(),
        ensures
            old(self).literal_done(final(self), *value, r),
    ;

    fn visit_logical_expr(&mut self, left: &Expr, operator: &Token, right: &Expr) -> (r: Result<T, E>)
        requires
            left.wf(),
            right.wf(),
            is_logical_operator(operator.type_),
        ensures
            old(self).logical_done(final(self), *left, *operator, *right, r),
    ;

    fn visit_unary_expr(&mut self, operator: &Token, right: &Expr) -> (r: Result<T, E>)
        requires
            right.wf(),
            is_unary_operator(operator.type_),
        ensures
            old(self).unary_done(final(self), *operator, *right, r),
    ;

    fn visit_variable_expr(&mut self, name: &Token) -> (r: Result<T, E>)
        ensures
            old(self).variable_done(final(self), *name, r),
    ;

    /// Visits `expr` with the operation for its kind, handing it the node's
    /// fields, and gives that operation's result.
    fn accept_expr(&mut self, expr: &Expr) -> (r: Result<T, E>)
        requires
            expr.wf(),
        ensures
            match expr {
                Expr::Assign { name, value } => old(self).assign_done(final(self), *name, **value, r),
                Expr::Binary { left, operator, right } => old(self).binary_done(
                    final(self),
                    **left,
                    *operator,
                    **right,
                    r,
                ),
                Expr::Grouping { expression } => old(self).grouping_done(final(self), **expression, r),
                Expr::Literal { value } => old(self).literal_done(final(self), *value, r),
                Expr::Logical { left, operator, right } => old(self).logical_done(
                    final(self),
                    **left,
                    *operator,
                    **right,
                    r,
                ),
                Expr::Unary { operator, right } => old(self).unary_done(final(self), *operator, **right, r),
                Expr::Variable { name } => old(self).variable_done(final(self), *name, r),
            },
    {
        match expr {
            Expr::Assign { name, value } => self.visit_assign_expr(name, value),
            Expr::Binary { left, operator, right } => self.visit_binary_expr(left, operator, right),
            Expr::Grouping { expression } => self.visit_grouping_expr(expression),
            Expr::Literal { value } => self.visit_literal_expr(value),
            Expr::Logical { left, operator, right } => self.visit_logical_expr(left, operator, right),
            Expr::Unary { operator, right } => self.visit_unary_expr(operator, right),
            Expr::Variable { name } => self.visit_variable_expr(name),
        }
    }
}

} // verus!
