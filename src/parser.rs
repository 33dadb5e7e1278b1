//! The parser: recursive descent over tokens, one token of lookahead.
//!
//! Precedence follows the call chain, lowest first: assignment, `or`,
//! `and`, equality, comparison, term, factor, unary, primary. A syntax error
//! abandons the current top-level declaration only: the parser reports it,
//! skips to the next statement boundary and goes on, so one run reports
//! every malformed statement and keeps every good one.
//!
//! Nesting depth is bounded only by the call stack: each level of nested
//! parentheses, blocks or unary operators takes one more frame.
use vstd::prelude::*;

use crate::error::{error_token, location_of, report_text, Error};
use crate::expr::{Expr, ExprView};
use crate::grammar::{
    dropped, expr_diags, for_model, is_at, lemma_concat_assoc, lemma_concat_empty, next_boundary,
    one_diag, tail_diags, decl_diags, var_diags, stmt_diags, for_diags, if_diags, print_diags,
    while_diags, block_diags, expression_statement_diags, program_diags, parse_block,
    parse_declaration, parse_expr, parse_expression_statement, parse_for, parse_if, parse_print,
    parse_program, parse_statement, parse_tail, parse_var, parse_while, recover,
};
use crate::scanner::views;
use crate::stmt::{models, Stmt, StmtView};
use crate::text::texts;
use crate::token::{Literal, Token, TokenType, TokenView};

verus! {

/// Tokens that a parser can take: they end with the end marker, and their
/// number literals are well formed.
pub open spec fn parsable(tokens: Seq<Token>) -> bool {
    &&& tokens.len() > 0
    &&& tokens.last().type_ == TokenType::Eof
    &&& forall|i: int| 0 <= i < tokens.len() ==> (#[trigger] tokens[i]).literal@.wf()
}

/// `r` is the expression that `spec` describes, and `pos` where it ends;
/// or both failed, at `pos`.
pub open spec fn expr_parsed(r: Result<Expr, Error>, pos: int, spec: Result<(ExprView, int), int>) -> bool {
    match (r, spec) {
        (Ok(x), Ok((e, q))) => x.model() == e && pos == q,
        (Err(_), Err(q)) => pos == q,
        _ => false,
    }
}

/// `r` is the statement that `spec` describes, and `pos` where it ends;
/// or both failed, at `pos`.
pub open spec fn stmt_parsed(r: Result<Stmt, Error>, pos: int, spec: Result<(StmtView, int), int>) -> bool {
    match (r, spec) {
        (Ok(x), Ok((e, q))) => x.model() == e && pos == q,
        (Err(_), Err(q)) => pos == q,
        _ => false,
    }
}

broadcast use {lemma_concat_assoc, lemma_concat_empty};

pub struct Parser {
    tokens: Vec<Token>,
    current: usize,
    diagnostics: Vec<String>,
}

impl Parser {
    pub closed spec fn inv(&self) -> bool {
        &&& parsable(self.tokens@)
        &&& self.current < self.tokens@.len()
    }

    pub closed spec fn position(&self) -> int {
        self.current as int
    }

    pub closed spec fn token_seq(&self) -> Seq<Token> {
        self.tokens@
    }

    pub closed spec fn reported(&self) -> Seq<String> {
        self.diagnostics@
    }

    /// The views of the tokens.
    pub closed spec fn stream(&self) -> Seq<TokenView> {
        views(self.tokens@)
    }

    closed spec fn remaining(&self) -> int {
        self.tokens@.len() - self.current
    }

    /// Moved forward over the same tokens, keeping what was reported.
    closed spec fn advanced_from(&self, old: &Parser) -> bool {
        &&& self.inv()
        &&& self.tokens == old.tokens
        &&& self.current >= old.current
        &&& self.diagnostics@.len() >= old.diagnostics@.len()
    }

    pub fn new(tokens: Vec<Token>) -> (r: Parser)
        requires
            parsable(tokens@),
        ensures
            r.inv(),
            r.token_seq() == tokens@,
            r.stream() == views(tokens@),
            r.position() == 0,
            r.reported().len() == 0,
    {
        Parser { tokens, current: 0, diagnostics: Vec::new() }
    }

    /// program -> declaration* EOF
    ///
    /// Parses every declaration; a malformed one is reported, skipped, and
    /// left out of the result.
    pub fn parse(&mut self) -> (r: Result<Vec<Stmt>, Error>)
        requires
            old(self).inv(),
        ensures
            texts(final(self).reported()) == texts(old(self).reported()) + program_diags(
                old(self).stream(),
                old(self).position(),
            ),
            final(self).inv(),
            final(self).token_seq() == old(self).token_seq(),
            final(self).reported().len() >= old(self).reported().len(),
            r matches Ok(stmts) && forall|i: int|
                0 <= i < stmts@.len() ==> (#[trigger] stmts@[i]).wf(),
            r matches Ok(stmts) ==> models(stmts@) == parse_program(
                old(self).stream(),
                old(self).position(),
                seq![],
            ),
            final(self).reported().len() >= old(self).reported().len() + dropped(
                old(self).stream(),
                old(self).position(),
            ),
    {
        let mut statements: Vec<Stmt> = Vec::new();
        assert(models(statements@) =~= seq![]);
        while !self.is_at_end()
            invariant
                self.advanced_from(old(self)),
                forall|i: int| 0 <= i < statements@.len() ==> (#[trigger] statements@[i]).wf(),
                parse_program(self.stream(), self.current as int, models(statements@)) == parse_program(
                    old(self).stream(),
                    old(self).current as int,
                    seq![],
                ),
                self.diagnostics@.len() + dropped(self.stream(), self.current as int)
                    >= old(self).diagnostics@.len() + dropped(old(self).stream(), old(self).current as int),
                texts(old(self).diagnostics@) + program_diags(old(self).stream(), old(self).current as int)
                    == texts(self.diagnostics@) + program_diags(self.stream(), self.current as int),
            decreases self.remaining(),
        {
            proof {
                self.lemma_stream_at(self.current as int);
            }
            match self.declaration_wrapper() {
                Some(x) => {
                    let ghost before = statements@;
                    let ghost m = x.model();
                    statements.push(x);
                    assert(models(statements@) =~= models(before).push(m));
                },
                None => {},
            }
        }
        proof {
            self.lemma_stream_at(self.current as int);
        }
        Ok(statements)
    }

    /// The diagnostics reported so far.
    pub fn diagnostics(&self) -> (r: &Vec<String>)
        ensures
            r@ == self.reported(),
    {
        &self.diagnostics
    }

    /// A declaration, or `None` after reporting it and skipping to the next
    /// statement boundary.
    fn declaration_wrapper(&mut self) -> (r: Option<Stmt>)
        requires
            old(self).inv(),
            old(self).tokens@[old(self).current as int].type_ != TokenType::Eof,
        ensures
            texts(final(self).diagnostics@) == texts(old(self).diagnostics@) + decl_diags(
                old(self).stream(),
                old(self).current as int,
            ),
            final(self).advanced_from(old(self)),
            final(self).current > old(self).current,
            r matches Some(s) ==> s.wf(),
            match (r, parse_declaration(old(self).stream(), old(self).current as int)) {
                (Some(x), Ok((st, q))) => x.model() == st && final(self).current == q,
                (None, Err(q)) => final(self).current == recover(old(self).stream(), q)
                    && final(self).diagnostics@.len() > old(self).diagnostics@.len(),
                _ => false,
            },
    {
        let from = self.current;
        let res = self.declaration();
        match res {
            Ok(s) => Some(s),
            Err(_) => {
                self.synchronize(from);
                None
            },
        }
    }

    // Statements.
    /// declaration -> var_declaration | statement
    fn declaration(&mut self) -> (r: Result<Stmt, Error>)
        requires
            old(self).inv(),
        ensures
            texts(final(self).diagnostics@) == texts(old(self).diagnostics@) + decl_diags(
                old(self).stream(),
                old(self).current as int,
            ),
            r is Err ==> final(self).diagnostics@.len() > old(self).diagnostics@.len(),
            final(self).advanced_from(old(self)),
            r is Ok ==> final(self).current > old(self).current,
            r matches Ok(s) ==> s.wf(),
            stmt_parsed(r, final(self).current as int, parse_declaration(old(self).stream(), old(self).current as int)),
        decreases old(self).remaining(), 20nat,
    {
        if self.match_one(TokenType::Var) {
            self.var_declaration()
        } else {
            self.statement()
        }
    }

    /// var_declaration -> "var" identifier ( "=" expression )? ";"
    fn var_declaration(&mut self) -> (r: Result<Stmt, Error>)
        requires
            old(self).inv(),
        ensures
            texts(final(self).diagnostics@) == texts(old(self).diagnostics@) + var_diags(
                old(self).stream(),
                old(self).current as int,
            ),
            r is Err ==> final(self).diagnostics@.len() > old(self).diagnostics@.len(),
            final(self).advanced_from(old(self)),
            r is Ok ==> final(self).current > old(self).current,
            r matches Ok(s) ==> s.wf(),
            stmt_parsed(r, final(self).current as int, parse_var(old(self).stream(), old(self).current as int)),
        decreases old(self).remaining(), 18nat,
    {
        let name = match self.match_err(TokenType::Identifier, "Expected variable name.") {
            Ok(t) => t,
            Err(e) => {
                return Err(e);
            },
        };
        let initializer = if self.match_one(TokenType::Equal) {
            match self.expression() {
                Ok(e) => Some(e),
                Err(e) => {
                    return Err(e);
                },
            }
        } else {
            None
        };
        match self.match_err(TokenType::Semicolon, "Expected ';' after variable declaration.") {
            Ok(_) => {},
            Err(e) => {
                return Err(e);
            },
        }
        Ok(Stmt::Var { name, initializer })
    }

    /// statement -> for_statement | if_statement | print_statement
    ///            | while_statement | block | expression_statement
    fn statement(&mut self) -> (r: Result<Stmt, Error>)
        requires
            old(self).inv(),
        ensures
            texts(final(self).diagnostics@) == texts(old(self).diagnostics@) + stmt_diags(
                old(self).stream(),
                old(self).current as int,
            ),
            r is Err ==> final(self).diagnostics@.len() > old(self).diagnostics@.len(),
            final(self).advanced_from(old(self)),
            r is Ok ==> final(self).current > old(self).current,
            r matches Ok(s) ==> s.wf(),
            stmt_parsed(r, final(self).current as int, parse_statement(old(self).stream(), old(self).current as int)),
        decreases old(self).remaining(), 19nat,
    {
        if self.match_one(TokenType::For) {
            self.for_statement()
        } else if self.match_one(TokenType::If) {
            self.if_statement()
        } else if self.match_one(TokenType::Print) {
            self.print_statement()
        } else if self.match_one(TokenType::While) {
            self.while_statement()
        } else if self.match_one(TokenType::LeftBrace) {
            match self.block() {
                Ok(statements) => {
                    let r = Stmt::Block { statements };
                    assert(r.model() == StmtView::Block(models(statements@))) by {
                        assert(r->Block_statements@ == statements@);
                        lemma_block_model(&r);
                    }
                    Ok(r)
                },
                Err(e) => Err(e),
            }
        } else {
            self.expression_statement()
        }
    }

    /// for_statement -> "for" "(" ( var_declaration | expression_statement | ";" )
    ///                  expression? ";" expression? ")" statement
    ///
    /// There is no loop node of its own: the loop becomes
    /// `{ initializer; while (condition) { body; increment; } }`, with a true
    /// condition where none is written, and without the parts left out.
    #[verifier::rlimit(60)]
    fn for_statement(&mut self) -> (r: Result<Stmt, Error>)
        requires
            old(self).inv(),
            old(self).current > 0,
        ensures
            texts(final(self).diagnostics@) == texts(old(self).diagnostics@) + for_diags(
                old(self).stream(),
                old(self).current as int,
            ),
            r is Err ==> final(self).diagnostics@.len() > old(self).diagnostics@.len(),
            final(self).advanced_from(old(self)),
            r matches Ok(s) ==> s.wf(),
            stmt_parsed(r, final(self).current as int, parse_for(old(self).stream(), old(self).current as int)),
        decreases old(self).remaining(), 18nat,
    {
        match self.match_err(TokenType::LeftParen, "Expect `(` after `for`.") {
            Ok(_) => {},
            Err(e) => {
                return Err(e);
            },
        }
        let initializer: Option<Stmt> = if self.match_one(TokenType::Semicolon) {
            None
        } else if self.match_one(TokenType::Var) {
            match self.var_declaration() {
                Ok(s) => Some(s),
                Err(e) => {
                    return Err(e);
                },
            }
        } else {
            match self.expression_statement() {
                Ok(s) => Some(s),
                Err(e) => {
                    return Err(e);
                },
            }
        };
        let condition = if !self.check(TokenType::Semicolon) {
            match self.expression() {
                Ok(e) => e,
                Err(e) => {
                    return Err(e);
                },
            }
        } else {
            Expr::Literal { value: Literal::Bool(true) }
        };
        match self.match_err(TokenType::Semicolon, "Expected `;` after `for` condition.") {
            Ok(_) => {},
            Err(e) => {
                return Err(e);
            },
        }
        let increment: Option<Expr> = if !self.check(TokenType::RightParen) {
            match self.expression() {
                Ok(e) => Some(e),
                Err(e) => {
                    return Err(e);
                },
            }
        } else {
            None
        };
        match self.match_err(TokenType::RightParen, "Expected `)` after `for` clause.") {
            Ok(_) => {},
            Err(e) => {
                return Err(e);
            },
        }
        let body = match self.statement() {
            Ok(s) => s,
            Err(e) => {
                return Err(e);
            },
        };
        Ok(desugar_for(initializer, condition, increment, body))
    }

    fn if_statement(&mut self) -> (r: Result<Stmt, Error>)
        requires
            old(self).inv(),
            old(self).current > 0,
        ensures
            texts(final(self).diagnostics@) == texts(old(self).diagnostics@) + if_diags(
                old(self).stream(),
                old(self).current as int,
            ),
            r is Err ==> final(self).diagnostics@.len() > old(self).diagnostics@.len(),
            final(self).advanced_from(old(self)),
            r matches Ok(s) ==> s.wf(),
            stmt_parsed(r, final(self).current as int, parse_if(old(self).stream(), old(self).current as int)),
        decreases old(self).remaining(), 18nat,
    {
        match self.match_err(TokenType::LeftParen, "Expected `(` after `if`.") {
            Ok(_) => {},
            Err(e) => {
                return Err(e);
            },
        }
        let condition = match self.expression() {
            Ok(e) => e,
            Err(e) => {
                return Err(e);
            },
        };
        match self.match_err(TokenType::RightParen, "Expected ')' after condition.") {
            Ok(_) => {},
            Err(e) => {
                return Err(e);
            },
        }
        let then_branch = match self.statement() {
            Ok(s) => s,
            Err(e) => {
                return Err(e);
            },
        };
        // `else` binds to the nearest `if`.
        let else_branch = if self.match_one(TokenType::Else) {
            match self.statement() {
                Ok(s) => Some(Box::new(s)),
                Err(e) => {
                    return Err(e);
                },
            }
        } else {
            None
        };
        Ok(Stmt::If { condition, then_branch: Box::new(then_branch), else_branch })
    }

    /// print_statement -> "print" expression ";"
    fn print_statement(&mut self) -> (r: Result<Stmt, Error>)
        requires
            old(self).inv(),
            old(self).current > 0,
        ensures
            texts(final(self).diagnostics@) == texts(old(self).diagnostics@) + print_diags(
                old(self).stream(),
                old(self).current as int,
            ),
            r is Err ==> final(self).diagnostics@.len() > old(self).diagnostics@.len(),
            final(self).advanced_from(old(self)),
            r matches Ok(s) ==> s.wf(),
            stmt_parsed(r, final(self).current as int, parse_print(old(self).stream(), old(self).current as int)),
        decreases old(self).remaining(), 18nat,
    {
        let value = match self.expression() {
            Ok(e) => e,
            Err(e) => {
                return Err(e);
            },
        };
        match self.match_err(TokenType::Semicolon, "Expected `;` after value.") {
            Ok(_) => {},
            Err(e) => {
                return Err(e);
            },
        }
        Ok(Stmt::Print { expression: value })
    }

    /// while_statement -> "while" "(" expression ")" statement
    fn while_statement(&mut self) -> (r: Result<Stmt, Error>)
        requires
            old(self).inv(),
            old(self).current > 0,
        ensures
            texts(final(self).diagnostics@) == texts(old(self).diagnostics@) + while_diags(
                old(self).stream(),
                old(self).current as int,
            ),
            r is Err ==> final(self).diagnostics@.len() > old(self).diagnostics@.len(),
            final(self).advanced_from(old(self)),
            r matches Ok(s) ==> s.wf(),
            stmt_parsed(r, final(self).current as int, parse_while(old(self).stream(), old(self).current as int)),
        decreases old(self).remaining(), 18nat,
    {
        match self.match_err(TokenType::LeftParen, "Expected `(` after `while`.") {
            Ok(_) => {},
            Err(e) => {
                return Err(e);
            },
        }
        let condition = match self.expression() {
            Ok(e) => e,
            Err(e) => {
                return Err(e);
            },
        };
        match self.match_err(TokenType::RightParen, "Expected ')' after condition.") {
            Ok(_) => {},
            Err(e) => {
                return Err(e);
            },
        }
        let body = match self.statement() {
            Ok(s) => s,
            Err(e) => {
                return Err(e);
            },
        };
        Ok(Stmt::While { condition, body: Box::new(body) })
    }

    /// block -> "{" declaration* "}"
    fn block(&mut self) -> (r: Result<Vec<Stmt>, Error>)
        requires
            old(self).inv(),
            old(self).current > 0,
        ensures
            texts(final(self).diagnostics@) == texts(old(self).diagnostics@) + block_diags(
                old(self).stream(),
                old(self).current as int,
            ),
            r is Err ==> final(self).diagnostics@.len() > old(self).diagnostics@.len(),
            final(self).advanced_from(old(self)),
            r is Ok ==> final(self).current > old(self).current,
            r matches Ok(v) ==> forall|i: int| 0 <= i < v@.len() ==> (#[trigger] v@[i]).wf(),
            match (r, parse_block(old(self).stream(), old(self).current as int, seq![])) {
                (Ok(v), Ok((StmtView::Block(acc), q))) => models(v@) == acc && final(self).current == q,
                (Err(_), Err(q)) => final(self).current == q,
                _ => false,
            },
        decreases old(self).remaining(), 21nat,
    {
        let mut statements: Vec<Stmt> = Vec::new();
        assert(models(statements@) =~= seq![]);
        while !self.check(TokenType::RightBrace) && !self.is_at_end()
            invariant
                self.advanced_from(old(self)),
                forall|i: int| 0 <= i < statements@.len() ==> (#[trigger] statements@[i]).wf(),
                parse_block(self.stream(), self.current as int, models(statements@)) == parse_block(
                    old(self).stream(),
                    old(self).current as int,
                    seq![],
                ),
                texts(old(self).diagnostics@) + block_diags(old(self).stream(), old(self).current as int)
                    == texts(self.diagnostics@) + block_diags(self.stream(), self.current as int),
            decreases self.remaining(),
        {
            match self.declaration() {
                Ok(s) => {
                    let ghost before = statements@;
                    let ghost m = s.model();
                    statements.push(s);
                    assert(models(statements@) =~= models(before).push(m));
                },
                Err(e) => {
                    return Err(e);
                },
            }
        }
        match self.match_err(TokenType::RightBrace, "Expected `}` after block.") {
            Ok(_) => {},
            Err(e) => {
                return Err(e);
            },
        }
        Ok(statements)
    }

    /// expression_statement -> expression ";"
    fn expression_statement(&mut self) -> (r: Result<Stmt, Error>)
        requires
            old(self).inv(),
        ensures
            texts(final(self).diagnostics@) == texts(old(self).diagnostics@) + expression_statement_diags(
                old(self).stream(),
                old(self).current as int,
            ),
            r is Err ==> final(self).diagnostics@.len() > old(self).diagnostics@.len(),
            final(self).advanced_from(old(self)),
            r is Ok ==> final(self).current > old(self).current,
            r matches Ok(s) ==> s.wf(),
            stmt_parsed(r, final(self).current as int, parse_expression_statement(old(self).stream(), old(self).current as int)),
        decreases old(self).remaining(), 18nat,
    {
        let expr = match self.expression() {
            Ok(e) => e,
            Err(e) => {
                return Err(e);
            },
        };
        match self.match_err(TokenType::Semicolon, "Expected `;` after expression.") {
            Ok(_) => {},
            Err(e) => {
                return Err(e);
            },
        }
        Ok(Stmt::Expression { expression: expr })
    }

    // Expressions.
    /// expression -> assignment
    fn expression(&mut self) -> (r: Result<Expr, Error>)
        requires
            old(self).inv(),
        ensures
            texts(final(self).diagnostics@) == texts(old(self).diagnostics@) + expr_diags(
                old(self).stream(),
                old(self).current as int,
                12,
            ),
            r is Err ==> final(self).diagnostics@.len() > old(self).diagnostics@.len(),
            final(self).advanced_from(old(self)),
            r is Ok ==> final(self).current > old(self).current,
            r matches Ok(e) ==> e.wf(),
            expr_parsed(
                r,
                final(self).current as int,
                parse_expr(old(self).stream(), old(self).current as int, 12),
            ),
        decreases old(self).remaining(), 12nat,
    {
        self.assignment()
    }

    /// assignment -> ( identifier "=" assignment ) | logic_or
    ///
    /// A target that is not a variable is reported, and the left-hand
    /// expression stands as the result: the declaration is not abandoned.
    fn assignment(&mut self) -> (r: Result<Expr, Error>)
        requires
            old(self).inv(),
        ensures
            texts(final(self).diagnostics@) == texts(old(self).diagnostics@) + expr_diags(
                old(self).stream(),
                old(self).current as int,
                11,
            ),
            r is Err ==> final(self).diagnostics@.len() > old(self).diagnostics@.len(),
            final(self).advanced_from(old(self)),
            r is Ok ==> final(self).current > old(self).current,
            r matches Ok(e) ==> e.wf(),
            expr_parsed(
                r,
                final(self).current as int,
                parse_expr(old(self).stream(), old(self).current as int, 11),
            ),
        decreases old(self).remaining(), 11nat,
    {
        let expr = match self.logic_or() {
            Ok(e) => e,
            Err(e) => {
                return Err(e);
            },
        };
        if self.match_one(TokenType::Equal) {
            let equals = self.previous().duplicate();
            let value = match self.assignment() {
                Ok(e) => e,
                Err(e) => {
                    return Err(e);
                },
            };
            match expr {
                Expr::Variable { name } => {
                    return Ok(Expr::Assign { name, value: Box::new(value) });
                },
                _ => {
                    self.report(&equals, "Invalid assignment target.");
                    return Ok(expr);
                },
            }
        }
        Ok(expr)
    }

    /// logic_or -> logic_and ( "or" logic_and )*
    fn logic_or(&mut self) -> (r: Result<Expr, Error>)
        requires
            old(self).inv(),
        ensures
            texts(final(self).diagnostics@) == texts(old(self).diagnostics@) + expr_diags(
                old(self).stream(),
                old(self).current as int,
                10,
            ),
            r is Err ==> final(self).diagnostics@.len() > old(self).diagnostics@.len(),
            final(self).advanced_from(old(self)),
            r is Ok ==> final(self).current > old(self).current,
            r matches Ok(e) ==> e.wf(),
            expr_parsed(
                r,
                final(self).current as int,
                parse_expr(old(self).stream(), old(self).current as int, 10),
            ),
        decreases old(self).remaining(), 10nat,
    {
        let mut expr = match self.logic_and() {
            Ok(e) => e,
            Err(e) => {
                return Err(e);
            },
        };
        while self.match_one(TokenType::Or)
            invariant
                self.advanced_from(old(self)),
                self.current > old(self).current,
                expr.wf(),
                parse_tail(self.stream(), expr.model(), self.current as int, 10) == parse_expr(
                    old(self).stream(),
                    old(self).current as int,
                    10,
                ),
                texts(old(self).diagnostics@) + expr_diags(old(self).stream(), old(self).current as int, 10)
                    == texts(self.diagnostics@) + tail_diags(self.stream(), expr.model(), self.current as int, 10),
            decreases self.remaining(),
        {
            let operator = self.previous().duplicate();
            let right = match self.logic_and() {
                Ok(e) => e,
                Err(e) => {
                    return Err(e);
                },
            };
            expr = Expr::Logical { left: Box::new(expr), operator, right: Box::new(right) };
        }
        Ok(expr)
    }

    /// logic_and -> equality ( "and" equality )*
    fn logic_and(&mut self) -> (r: Result<Expr, Error>)
        requires
            old(self).inv(),
        ensures
            texts(final(self).diagnostics@) == texts(old(self).diagnostics@) + expr_diags(
                old(self).stream(),
                old(self).current as int,
                9,
            ),
            r is Err ==> final(self).diagnostics@.len() > old(self).diagnostics@.len(),
            final(self).advanced_from(old(self)),
            r is Ok ==> final(self).current > old(self).current,
            r matches Ok(e) ==> e.wf(),
            expr_parsed(
                r,
                final(self).current as int,
                parse_expr(old(self).stream(), old(self).current as int, 9),
            ),
        decreases old(self).remaining(), 9nat,
    {
        let mut expr = match self.equality() {
            Ok(e) => e,
            Err(e) => {
                return Err(e);
            },
        };
        while self.match_one(TokenType::And)
            invariant
                self.advanced_from(old(self)),
                self.current > old(self).current,
                expr.wf(),
                parse_tail(self.stream(), expr.model(), self.current as int, 9) == parse_expr(
                    old(self).stream(),
                    old(self).current as int,
                    9,
                ),
                texts(old(self).diagnostics@) + expr_diags(old(self).stream(), old(self).current as int, 9)
                    == texts(self.diagnostics@) + tail_diags(self.stream(), expr.model(), self.current as int, 9),
            decreases self.remaining(),
        {
            let operator = self.previous().duplicate();
            let right = match self.equality() {
                Ok(e) => e,
                Err(e) => {
                    return Err(e);
                },
            };
            expr = Expr::Logical { left: Box::new(expr), operator, right: Box::new(right) };
        }
        Ok(expr)
    }

    /// equality -> comparison ( ( "!=" | "==" ) comparison )*
    fn equality(&mut self) -> (r: Result<Expr, Error>)
        requires
            old(self).inv(),
        ensures
            texts(final(self).diagnostics@) == texts(old(self).diagnostics@) + expr_diags(
                old(self).stream(),
                old(self).current as int,
                8,
            ),
            r is Err ==> final(self).diagnostics@.len() > old(self).diagnostics@.len(),
            final(self).advanced_from(old(self)),
            r is Ok ==> final(self).current > old(self).current,
            r matches Ok(e) ==> e.wf(),
            expr_parsed(
                r,
                final(self).current as int,
                parse_expr(old(self).stream(), old(self).current as int, 8),
            ),
        decreases old(self).remaining(), 8nat,
    {
        let mut expr = match self.comparison() {
            Ok(e) => e,
            Err(e) => {
                return Err(e);
            },
        };
        while self.match_two(TokenType::BangEqual, TokenType::EqualEqual)
            invariant
                self.advanced_from(old(self)),
                self.current > old(self).current,
                expr.wf(),
                parse_tail(self.stream(), expr.model(), self.current as int, 8) == parse_expr(
                    old(self).stream(),
                    old(self).current as int,
                    8,
                ),
                texts(old(self).diagnostics@) + expr_diags(old(self).stream(), old(self).current as int, 8)
                    == texts(self.diagnostics@) + tail_diags(self.stream(), expr.model(), self.current as int, 8),
            decreases self.remaining(),
        {
            let operator = self.previous().duplicate();
            let right = match self.comparison() {
                Ok(e) => e,
                Err(e) => {
                    return Err(e);
                },
            };
            expr = Expr::Binary { left: Box::new(expr), operator, right: Box::new(right) };
        }
        Ok(expr)
    }

    /// comparison -> term ( ( ">" | ">=" | "<" | "<=" ) term )*
    fn comparison(&mut self) -> (r: Result<Expr, Error>)
        requires
            old(self).inv(),
        ensures
            texts(final(self).diagnostics@) == texts(old(self).diagnostics@) + expr_diags(
                old(self).stream(),
                old(self).current as int,
                7,
            ),
            r is Err ==> final(self).diagnostics@.len() > old(self).diagnostics@.len(),
            final(self).advanced_from(old(self)),
            r is Ok ==> final(self).current > old(self).current,
            r matches Ok(e) ==> e.wf(),
            expr_parsed(
                r,
                final(self).current as int,
                parse_expr(old(self).stream(), old(self).current as int, 7),
            ),
        decreases old(self).remaining(), 7nat,
    {
        let mut expr = match self.term() {
            Ok(e) => e,
            Err(e) => {
                return Err(e);
            },
        };
        while self.match_two(TokenType::Greater, TokenType::GreaterEqual) || self.match_two(
            TokenType::Less,
            TokenType::LessEqual,
        )
            invariant
                self.advanced_from(old(self)),
                self.current > old(self).current,
                expr.wf(),
                parse_tail(self.stream(), expr.model(), self.current as int, 7) == parse_expr(
                    old(self).stream(),
                    old(self).current as int,
                    7,
                ),
                texts(old(self).diagnostics@) + expr_diags(old(self).stream(), old(self).current as int, 7)
                    == texts(self.diagnostics@) + tail_diags(self.stream(), expr.model(), self.current as int, 7),
            decreases self.remaining(),
        {
            let operator = self.previous().duplicate();
            let right = match self.term() {
                Ok(e) => e,
                Err(e) => {
                    return Err(e);
                },
            };
            expr = Expr::Binary { left: Box::new(expr), operator, right: Box::new(right) };
        }
        Ok(expr)
    }

    /// term -> factor ( ( "-" | "+" ) factor )*
    fn term(&mut self) -> (r: Result<Expr, Error>)
        requires
            old(self).inv(),
        ensures
            texts(final(self).diagnostics@) == texts(old(self).diagnostics@) + expr_diags(
                old(self).stream(),
                old(self).current as int,
                6,
            ),
            r is Err ==> final(self).diagnostics@.len() > old(self).diagnostics@.len(),
            final(self).advanced_from(old(self)),
            r is Ok ==> final(self).current > old(self).current,
            r matches Ok(e) ==> e.wf(),
            expr_parsed(
                r,
                final(self).current as int,
                parse_expr(old(self).stream(), old(self).current as int, 6),
            ),
        decreases old(self).remaining(), 6nat,
    {
        let mut expr = match self.factor() {
            Ok(e) => e,
            Err(e) => {
                return Err(e);
            },
        };
        while self.match_two(TokenType::Minus, TokenType::Plus)
            invariant
                self.advanced_from(old(self)),
                self.current > old(self).current,
                expr.wf(),
                parse_tail(self.stream(), expr.model(), self.current as int, 6) == parse_expr(
                    old(self).stream(),
                    old(self).current as int,
                    6,
                ),
                texts(old(self).diagnostics@) + expr_diags(old(self).stream(), old(self).current as int, 6)
                    == texts(self.diagnostics@) + tail_diags(self.stream(), expr.model(), self.current as int, 6),
            decreases self.remaining(),
        {
            let operator = self.previous().duplicate();
            let right = match self.factor() {
                Ok(e) => e,
                Err(e) => {
                    return Err(e);
                },
            };
            expr = Expr::Binary { left: Box::new(expr), operator, right: Box::new(right) };
        }
        Ok(expr)
    }

    /// factor -> unary ( ( "/" | "*" ) unary )*
    fn factor(&mut self) -> (r: Result<Expr, Error>)
        requires
            old(self).inv(),
        ensures
            texts(final(self).diagnostics@) == texts(old(self).diagnostics@) + expr_diags(
                old(self).stream(),
                old(self).current as int,
                5,
            ),
            r is Err ==> final(self).diagnostics@.len() > old(self).diagnostics@.len(),
            final(self).advanced_from(old(self)),
            r is Ok ==> final(self).current > old(self).current,
            r matches Ok(e) ==> e.wf(),
            expr_parsed(
                r,
                final(self).current as int,
                parse_expr(old(self).stream(), old(self).current as int, 5),
            ),
        decreases old(self).remaining(), 5nat,
    {
        let mut expr = match self.unary() {
            Ok(e) => e,
            Err(e) => {
                return Err(e);
            },
        };
        while self.match_two(TokenType::Slash, TokenType::Star)
            invariant
                self.advanced_from(old(self)),
                self.current > old(self).current,
                expr.wf(),
                parse_tail(self.stream(), expr.model(), self.current as int, 5) == parse_expr(
                    old(self).stream(),
                    old(self).current as int,
                    5,
                ),
                texts(old(self).diagnostics@) + expr_diags(old(self).stream(), old(self).current as int, 5)
                    == texts(self.diagnostics@) + tail_diags(self.stream(), expr.model(), self.current as int, 5),
            decreases self.remaining(),
        {
            let operator = self.previous().duplicate();
            let right = match self.unary() {
                Ok(e) => e,
                Err(e) => {
                    return Err(e);
                },
            };
            expr = Expr::Binary { left: Box::new(expr), operator, right: Box::new(right) };
        }
        Ok(expr)
    }

    /// unary -> ( ( "!" | "-" ) unary ) | primary
    fn unary(&mut self) -> (r: Result<Expr, Error>)
        requires
            old(self).inv(),
        ensures
            texts(final(self).diagnostics@) == texts(old(self).diagnostics@) + expr_diags(
                old(self).stream(),
                old(self).current as int,
                4,
            ),
            r is Err ==> final(self).diagnostics@.len() > old(self).diagnostics@.len(),
            final(self).advanced_from(old(self)),
            r is Ok ==> final(self).current > old(self).current,
            r matches Ok(e) ==> e.wf(),
            expr_parsed(
                r,
                final(self).current as int,
                parse_expr(old(self).stream(), old(self).current as int, 4),
            ),
        decreases old(self).remaining(), 4nat,
    {
        if self.match_two(TokenType::Bang, TokenType::Minus) {
            let operator = self.previous().duplicate();
            match self.unary() {
                Ok(right) => Ok(Expr::Unary { operator, right: Box::new(right) }),
                Err(e) => Err(e),
            }
        } else {
            self.primary()
        }
    }

    /// primary -> "false" | "true" | "nil" | number | string
    ///          | "(" expression ")" | identifier
    fn primary(&mut self) -> (r: Result<Expr, Error>)
        requires
            old(self).inv(),
        ensures
            texts(final(self).diagnostics@) == texts(old(self).diagnostics@) + expr_diags(
                old(self).stream(),
                old(self).current as int,
                3,
            ),
            r is Err ==> final(self).diagnostics@.len() > old(self).diagnostics@.len(),
            final(self).advanced_from(old(self)),
            r is Ok ==> final(self).current > old(self).current,
            r matches Ok(e) ==> e.wf(),
            expr_parsed(
                r,
                final(self).current as int,
                parse_expr(old(self).stream(), old(self).current as int, 3),
            ),
        decreases old(self).remaining(), 3nat,
    {
        if self.match_one(TokenType::False) {
            Ok(Expr::Literal { value: Literal::Bool(false) })
        } else if self.match_one(TokenType::True) {
            Ok(Expr::Literal { value: Literal::Bool(true) })
        } else if self.match_one(TokenType::Nil) {
            Ok(Expr::Literal { value: Literal::Nil })
        } else if self.match_two(TokenType::Number, TokenType::String_) {
            Ok(Expr::Literal { value: self.previous().literal.duplicate() })
        } else if self.match_one(TokenType::LeftParen) {
            let expr = match self.expression() {
                Ok(e) => e,
                Err(e) => {
                    return Err(e);
                },
            };
            match self.match_err(TokenType::RightParen, "Expected `)` after expression.") {
                Ok(_) => {},
                Err(e) => {
                    return Err(e);
                },
            }
            Ok(Expr::Grouping { expression: Box::new(expr) })
        } else if self.match_one(TokenType::Identifier) {
            Ok(Expr::Variable { name: self.previous().duplicate() })
        } else {
            let t = self.peek().duplicate();
            Err(self.error(&t, "Expected expression."))
        }
    }

    // Token handling.
    /// Consumes the next token if it is of kind `t`.
    fn match_one(&mut self, t: TokenType) -> (r: bool)
        requires
            old(self).inv(),
        ensures
            final(self).inv(),
            final(self).tokens == old(self).tokens,
            final(self).diagnostics == old(self).diagnostics,
            r == is_at(old(self).stream(), old(self).current as int, t),
            r ==> final(self).current == old(self).current + 1,
            !r ==> final(self).current == old(self).current,
    {
        if self.check(t) {
            self.advance();
            true
        } else {
            false
        }
    }

    /// Consumes the next token if it is of kind `a` or `b`.
    fn match_two(&mut self, a: TokenType, b: TokenType) -> (r: bool)
        requires
            old(self).inv(),
        ensures
            final(self).inv(),
            final(self).tokens == old(self).tokens,
            final(self).diagnostics == old(self).diagnostics,
            r == (is_at(old(self).stream(), old(self).current as int, a) || is_at(
                old(self).stream(),
                old(self).current as int,
                b,
            )),
            r ==> final(self).current == old(self).current + 1,
            !r ==> final(self).current == old(self).current,
    {
        self.match_one(a) || self.match_one(b)
    }

    /// Consumes the next token if it is of kind `t`; otherwise reports
    /// `message` at the next token.
    fn match_err(&mut self, t: TokenType, message: &str) -> (r: Result<Token, Error>)
        requires
            old(self).inv(),
        ensures
            r is Err ==> final(self).diagnostics@.len() == old(self).diagnostics@.len() + 1,
            final(self).advanced_from(old(self)),
            (r is Ok) == is_at(old(self).stream(), old(self).current as int, t),
            r matches Ok(tok) ==> tok@ == old(self).stream()[old(self).current as int],
            r is Ok ==> final(self).current == old(self).current + 1,
            r is Err ==> final(self).current == old(self).current,
            r matches Err(e) ==> e is ParseError,
            r is Ok ==> final(self).diagnostics == old(self).diagnostics,
            r is Err ==> texts(final(self).diagnostics@) == texts(old(self).diagnostics@) + one_diag(
                old(self).stream(),
                old(self).current as int,
                message@,
            ),
    {
        proof {
            self.lemma_stream_at(self.current as int);
        }
        if self.check(t) {
            proof {
                self.lemma_stream_at(self.current as int);
            }
            Ok(self.advance().duplicate())
        } else {
            let tok = self.peek().duplicate();
            Err(self.error(&tok, message))
        }
    }

    /// Whether the next token, short of the end, is of kind `t`.
    fn check(&self, t: TokenType) -> (r: bool)
        requires
            self.inv(),
        ensures
            r == is_at(self.stream(), self.current as int, t),
    {
        proof {
            self.lemma_stream_at(self.current as int);
        }
        if self.is_at_end() {
            false
        } else {
            self.peek().type_ == t
        }
    }

    proof fn lemma_stream_at(&self, k: int)
        requires
            0 <= k < self.tokens@.len(),
        ensures
            self.stream().len() == self.tokens@.len(),
            self.stream()[k] == self.tokens@[k]@,
    {
    }

    fn advance(&mut self) -> (r: &Token)
        requires
            old(self).inv(),
            old(self).current > 0 || old(self).tokens@[old(self).current as int].type_ != TokenType::Eof,
        ensures
            final(self).inv(),
            final(self).tokens == old(self).tokens,
            final(self).diagnostics == old(self).diagnostics,
            old(self).tokens@[old(self).current as int].type_ != TokenType::Eof ==> final(self).current == old(self).current + 1 && *r == old(self).tokens@[old(self).current as int],
            old(self).tokens@[old(self).current as int].type_ == TokenType::Eof ==> final(self).current == old(self).current,
    {
        let n = self.tokens.len();
        if !self.is_at_end() {
            assert(self.current + 1 < n);
            self.current = self.current + 1;
        }
        &self.tokens[self.current - 1]
    }

    fn is_at_end(&self) -> (r: bool)
        requires
            self.inv(),
        ensures
            r == (self.tokens@[self.current as int].type_ == TokenType::Eof),
    {
        self.peek().type_ == TokenType::Eof
    }

    fn peek(&self) -> (r: &Token)
        requires
            self.inv(),
        ensures
            *r == self.tokens@[self.current as int],
    {
        &self.tokens[self.current]
    }

    fn previous(&self) -> (r: &Token)
        requires
            self.inv(),
            self.current > 0,
        ensures
            *r == self.tokens@[self.current - 1],
            r.literal@.wf(),
    {
        &self.tokens[self.current - 1]
    }

    /// Reports `message` at `token`.
    fn report(&mut self, token: &Token, message: &str)
        requires
            old(self).inv(),
        ensures
            final(self).inv(),
            final(self).tokens == old(self).tokens,
            final(self).current == old(self).current,
            final(self).diagnostics@.len() == old(self).diagnostics@.len() + 1,
            final(self).diagnostics@.drop_last() == old(self).diagnostics@,
            final(self).diagnostics@.last()@ == report_text(token.line as nat, location_of(token@), message@),
            texts(final(self).diagnostics@) == texts(old(self).diagnostics@) + seq![
                report_text(token.line as nat, location_of(token@), message@),
            ],
    {
        let d = error_token(token, message);
        self.diagnostics.push(d);
        assert(self.diagnostics@.drop_last() =~= old(self).diagnostics@);
        assert(texts(self.diagnostics@) =~= texts(old(self).diagnostics@) + seq![
            report_text(token.line as nat, location_of(token@), message@),
        ]);
    }

    /// Reports `message` at `token`, and gives the error that abandons the
    /// current declaration.
    fn error(&mut self, token: &Token, message: &str) -> (r: Error)
        requires
            old(self).inv(),
        ensures
            final(self).inv(),
            final(self).tokens == old(self).tokens,
            final(self).current == old(self).current,
            final(self).diagnostics@.len() == old(self).diagnostics@.len() + 1,
            texts(final(self).diagnostics@) == texts(old(self).diagnostics@) + seq![
                report_text(token.line as nat, location_of(token@), message@),
            ],
            r is ParseError,
    {
        self.report(token, message);
        Error::ParseError
    }

    /// Skips the current token, then tokens up to the next statement
    /// boundary.
    fn synchronize(&mut self, from: usize)
        requires
            old(self).inv(),
            from <= old(self).current,
            old(self).tokens@[from as int].type_ != TokenType::Eof,
        ensures
            final(self).diagnostics == old(self).diagnostics,
            final(self).advanced_from(old(self)),
            final(self).current > from,
            final(self).current == recover(old(self).stream(), old(self).current as int),
    {
        proof {
            self.lemma_stream_at(self.current as int);
        }
        self.advance();
        while !self.is_at_end()
            invariant
                self.advanced_from(old(self)),
                self.current > from,
                next_boundary(self.stream(), self.current as int) == recover(
                    old(self).stream(),
                    old(self).current as int,
                ),
                self.diagnostics == old(self).diagnostics,
            decreases self.remaining(),
        {
            proof {
                self.lemma_stream_at(self.current as int);
                self.lemma_stream_at(self.current - 1);
            }
            if self.previous().type_ == TokenType::Semicolon {
                return;
            }
            let k = self.peek().type_;
            if k == TokenType::Class || k == TokenType::Fun || k == TokenType::Var || k
                == TokenType::For || k == TokenType::If || k == TokenType::While || k
                == TokenType::Print || k == TokenType::Return {
                return;
            }
            self.advance();
        }
        proof {
            self.lemma_stream_at(self.current as int);
        }
    }
}

/// The loop that a `for` statement stands for.
pub fn desugar_for(
    initializer: Option<Stmt>,
    condition: Expr,
    increment: Option<Expr>,
    body: Stmt,
) -> (r: Stmt)
    requires
        initializer matches Some(s) ==> s.wf(),
        condition.wf(),
        increment matches Some(e) ==> e.wf(),
        body.wf(),
    ensures
        r.wf(),
        r.model() == for_model(
            match initializer {
                Some(s) => Some(s.model()),
                None => None,
            },
            condition.model(),
            match increment {
                Some(e) => Some(e.model()),
                None => None,
            },
            body.model(),
        ),
{
    let ghost plain_body = body;
    let inner = match increment {
        Some(inc) => {
            let statements = vec![body, Stmt::Expression { expression: inc }];
            assert(statements@[0].wf() && statements@[1].wf());
            let b = Stmt::Block { statements };
            proof {
                lemma_block_model(&b);
                assert(models(statements@) =~= seq![plain_body.model(), StmtView::Expression(inc.model())]);
            }
            b
        },
        None => body,
    };
    assert(inner.wf());
    let w = Stmt::While { condition, body: Box::new(inner) };
    assert(w.wf());
    match initializer {
        Some(init) => {
            let ghost init_model = init.model();
            let ghost w_model = w.model();
            let statements = vec![init, w];
            assert(statements@[0].wf() && statements@[1].wf());
            let b = Stmt::Block { statements };
            proof {
                lemma_block_model(&b);
                assert(models(statements@) =~= seq![init_model, w_model]);
            }
            b
        },
        None => w,
    }
}

/// A block's view is the sequence of its statements' views.
pub proof fn lemma_block_model(s: &Stmt)
    requires
        s is Block,
    ensures
        s.model() == StmtView::Block(models(s->Block_statements@)),
{
    assert(s.model()->Block_0 =~= models(s->Block_statements@));
}

} // verus!
