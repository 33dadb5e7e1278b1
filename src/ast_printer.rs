//! A debugging view of expressions in prefix form: `(* (- 1) (group 2))`.
use vstd::prelude::*;

use crate::expr::{Expr, ExprVisitor};
use crate::text::push_char;
use crate::token::{Literal, Token};

verus! {

/// The parts, each preceded by a space.
pub open spec fn spaced(parts: Seq<Seq<char>>) -> Seq<char>
    decreases parts.len(),
{
    if parts.len() == 0 {
        seq![]
    } else {
        spaced(parts.drop_last()) + seq![' '] + parts.last()
    }
}

/// `(name part1 part2 ...)`.
pub open spec fn parenthesized(name: Seq<char>, parts: Seq<Seq<char>>) -> Seq<char> {
    seq!['('] + name + spaced(parts) + seq![')']
}

/// The prefix form of an expression.
pub open spec fn show(e: &Expr) -> Seq<char>
    decreases e,
{
    match e {
        Expr::Assign { name, value } => parenthesized(name.lexeme@, seq![show(value)]),
        Expr::Binary { left, operator, right } => parenthesized(
            operator.lexeme@,
            seq![show(left), show(right)],
        ),
        Expr::Grouping { expression } => parenthesized("group"@, seq![show(expression)]),
        Expr::Literal { value } => value@.text(),
        Expr::Logical { left, operator, right } => parenthesized(
            operator.lexeme@,
            seq![show(left), show(right)],
        ),
        Expr::Unary { operator, right } => parenthesized(operator.lexeme@, seq![show(right)]),
        Expr::Variable { name } => name.lexeme@,
    }
}

pub struct AstPrinter;

impl AstPrinter {
    pub fn print(&mut self, expr: &Expr) -> (r: String)
        requires
            expr.wf(),
        ensures
            r@ == show(expr),
        decreases expr,
    {
        match expr {
            Expr::Assign { name, value } => {
                let parts = vec![self.print(value)];
                assert(parts@.map_values(|p: String| p@) =~= seq![show(value)]);
                self.parenthesize(name.lexeme.as_str(), &parts)
            },
            Expr::Binary { left, operator, right } => {
                let parts = vec![self.print(left), self.print(right)];
                assert(parts@.map_values(|p: String| p@) =~= seq![show(left), show(right)]);
                self.parenthesize(operator.lexeme.as_str(), &parts)
            },
            Expr::Grouping { expression } => {
                let parts = vec![self.print(expression)];
                assert(parts@.map_values(|p: String| p@) =~= seq![show(expression)]);
                self.parenthesize("group", &parts)
            },
            Expr::Literal { value } => value.to_string(),
            Expr::Logical { left, operator, right } => {
                let parts = vec![self.print(left), self.print(right)];
                assert(parts@.map_values(|p: String| p@) =~= seq![show(left), show(right)]);
                self.parenthesize(operator.lexeme.as_str(), &parts)
            },
            Expr::Unary { operator, right } => {
                let parts = vec![self.print(right)];
                assert(parts@.map_values(|p: String| p@) =~= seq![show(right)]);
                self.parenthesize(operator.lexeme.as_str(), &parts)
            },
            Expr::Variable { name } => name.lexeme.clone(),
        }
    }

    fn parenthesize(&self, name: &str, parts: &Vec<String>) -> (r: String)
        ensures
            r@ == parenthesized(name@, parts@.map_values(|p: String| p@)),
    {
        let mut s = String::new();
        push_char(&mut s, '(');
        s.append(name);
        let ghost views = parts@.map_values(|p: String| p@);
        let mut i: usize = 0;
        while i < parts.len()
            invariant
                i <= parts@.len(),
                views == parts@.map_values(|p: String| p@),
                s@ == seq!['('] + name@ + spaced(views.take(i as int)),
            decreases parts@.len() - i,
        {
            push_char(&mut s, ' ');
            s.append(parts[i].as_str());
            i = i + 1;
            assert(views.take(i as int).drop_last() =~= views.take(i - 1));
        }
        push_char(&mut s, ')');
        assert(views.take(parts@.len() as int) =~= views);
        s
    }
}

/// The printed text is `text`.
pub open spec fn printed(r: Result<String, ()>, text: Seq<char>) -> bool {
    match r {
        Ok(s) => s@ == text,
        Err(_) => false,
    }
}

impl ExprVisitor<String, ()> for AstPrinter {
    open spec fn assign_done(&self, after: &Self, name: Token, value: Expr, r: Result<String, ()>) -> bool {
        printed(r, parenthesized(name.lexeme@, seq![show(&value)]))
    }

    open spec fn binary_done(
        &self,
        after: &Self,
        left: Expr,
        operator: Token,
        right: Expr,
        r: Result<String, ()>,
    ) -> bool {
        printed(r, parenthesized(operator.lexeme@, seq![show(&left), show(&right)]))
    }

    open spec fn grouping_done(&self, after: &Self, expression: Expr, r: Result<String, ()>) -> bool {
        printed(r, parenthesized("group"@, seq![show(&expression)]))
    }

    open spec fn literal_done(&self, after: &Self, value: Literal, r: Result<String, ()>) -> bool {
        printed(r, value@.text())
    }

    open spec fn logical_done(
        &self,
        after: &Self,
        left: Expr,
        operator: Token,
        right: Expr,
        r: Result<String, ()>,
    ) -> bool {
        printed(r, parenthesized(operator.lexeme@, seq![show(&left), show(&right)]))
    }

    open spec fn unary_done(&self, after: &Self, operator: Token, right: Expr, r: Result<String, ()>) -> bool {
        printed(r, parenthesized(operator.lexeme@, seq![show(&right)]))
    }

    open spec fn variable_done(&self, after: &Self, name: Token, r: Result<String, ()>) -> bool {
        printed(r, name.lexeme@)
    }

    fn visit_assign_expr(&mut self, name: &Token, value: &Expr) -> (r: Result<String, ()>) {
        let parts = vec![self.print(value)];
        assert(parts@.map_values(|p: String| p@) =~= seq![show(value)]);
        Ok(self.parenthesize(name.lexeme.as_str(), &parts))
    }

    fn visit_binary_expr(&mut self, left: &Expr, operator: &Token, right: &Expr) -> (r: Result<String, ()>) {
        let parts = vec![self.print(left), self.print(right)];
        assert(parts@.map_values(|p: String| p@) =~= seq![show(left), show(right)]);
        Ok(self.parenthesize(operator.lexeme.as_str(), &parts))
    }

    fn visit_grouping_expr(&mut self, expression: &Expr) -> (r: Result<String, ()>) {
        let parts = vec![self.print(expression)];
        assert(parts@.map_values(|p: String| p@) =~= seq![show(expression)]);
        Ok(self.parenthesize("group", &parts))
    }

    fn visit_literal_expr(&mut self, value: &Literal) -> (r: Result<String, ()>) {
        Ok(value.to_string())
    }

    fn visit_logical_expr(&mut self, left: &Expr, operator: &Token, right: &Expr) -> (r: Result<String, ()>) {
        let parts = vec![self.print(left), self.print(right)];
        assert(parts@.map_values(|p: String| p@) =~= seq![show(left), show(right)]);
        Ok(self.parenthesize(operator.lexeme.as_str(), &parts))
    }

    fn visit_unary_expr(&mut self, operator: &Token, right: &Expr) -> (r: Result<String, ()>) {
        let parts = vec![self.print(right)];
        assert(parts@.map_values(|p: String| p@) =~= seq![show(right)]);
        Ok(self.parenthesize(operator.lexeme.as_str(), &parts))
    }

    fn visit_variable_expr(&mut self, name: &Token) -> (r: Result<String, ()>) {
        Ok(name.lexeme.clone())
    }
}

} // verus!
