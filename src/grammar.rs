//! The grammar, as spec functions over token views: what the parser must
//! build from a token sequence, and where it must stop.
//!
//! Each rule takes the position of its first token and gives the tree it
//! parses with the position just after it, or the position at which it
//! failed. Expression rules are indexed by precedence level, lowest binding
//! last: 3 primary, 4 unary, 5 factor (`/ *`), 6 term (`- +`), 7 comparison,
//! 8 equality, 9 `and`, 10 `or`, 11 assignment, 12 expression.
use vstd::prelude::*;

use crate::error::{location_of, report_text};
use crate::expr::ExprView;
use crate::stmt::StmtView;
use crate::token::{TokenType, TokenView, Val};

verus! {

pub open spec fn at_end(ts: Seq<TokenView>, p: int) -> bool {
    ts[p].kind == TokenType::Eof
}

/// The token at `p` is of kind `k`, short of the end.
pub open spec fn is_at(ts: Seq<TokenView>, p: int, k: TokenType) -> bool {
    0 <= p < ts.len() && !at_end(ts, p) && ts[p].kind == k
}

/// The operators of the binary levels.
pub open spec fn level_operator(level: nat, k: TokenType) -> bool {
    if level == 5 {
        k == TokenType::Slash || k == TokenType::Star
    } else if level == 6 {
        k == TokenType::Minus || k == TokenType::Plus
    } else if level == 7 {
        k == TokenType::Greater || k == TokenType::GreaterEqual || k == TokenType::Less || k
            == TokenType::LessEqual
    } else if level == 8 {
        k == TokenType::BangEqual || k == TokenType::EqualEqual
    } else if level == 9 {
        k == TokenType::And
    } else if level == 10 {
        k == TokenType::Or
    } else {
        false
    }
}

/// `left op right` as a node of the level's kind.
pub open spec fn combine(level: nat, left: ExprView, op: TokenView, right: ExprView) -> ExprView {
    if level >= 9 {
        ExprView::Logical(Box::new(left), op, Box::new(right))
    } else {
        ExprView::Binary(Box::new(left), op, Box::new(right))
    }
}

/// The expression of precedence `level` that starts at `p`.
pub open spec fn parse_expr(ts: Seq<TokenView>, p: int, level: nat) -> Result<(ExprView, int), int>
    decreases ts.len() - p, level, 1nat,
{
    if !(0 <= p < ts.len()) {
        Err(p)
    } else if level <= 3 {
        if is_at(ts, p, TokenType::False) {
            Ok((ExprView::Literal(Val::Bool(false)), p + 1))
        } else if is_at(ts, p, TokenType::True) {
            Ok((ExprView::Literal(Val::Bool(true)), p + 1))
        } else if is_at(ts, p, TokenType::Nil) {
            Ok((ExprView::Literal(Val::Nil), p + 1))
        } else if is_at(ts, p, TokenType::Number) || is_at(ts, p, TokenType::String_) {
            Ok((ExprView::Literal(ts[p].literal), p + 1))
        } else if is_at(ts, p, TokenType::LeftParen) {
            match parse_expr(ts, p + 1, 12) {
                Err(q) => Err(q),
                Ok((e, q)) => if is_at(ts, q, TokenType::RightParen) {
                    Ok((ExprView::Grouping(Box::new(e)), q + 1))
                } else {
                    Err(q)
                },
            }
        } else if is_at(ts, p, TokenType::Identifier) {
            Ok((ExprView::Variable(ts[p]), p + 1))
        } else {
            Err(p)
        }
    } else if level == 4 {
        if is_at(ts, p, TokenType::Bang) || is_at(ts, p, TokenType::Minus) {
            match parse_expr(ts, p + 1, 4) {
                Err(q) => Err(q),
                Ok((r, q)) => Ok((ExprView::Unary(ts[p], Box::new(r)), q)),
            }
        } else {
            parse_expr(ts, p, 3)
        }
    } else if level <= 10 {
        match parse_expr(ts, p, (level - 1) as nat) {
            Err(q) => Err(q),
            Ok((left, q)) => if p <= q < ts.len() {
                parse_tail(ts, left, q, level)
            } else {
                Err(q)
            },
        }
    } else if level == 11 {
        match parse_expr(ts, p, 10) {
            Err(q) => Err(q),
            Ok((left, q)) => if is_at(ts, q, TokenType::Equal) && q >= p {
                match parse_expr(ts, q + 1, 11) {
                    Err(r) => Err(r),
                    Ok((value, r)) => match left {
                        ExprView::Variable(name) => Ok((ExprView::Assign(name, Box::new(value)), r)),
                        _ => Ok((left, r)),
                    },
                }
            } else {
                Ok((left, q))
            },
        }
    } else {
        parse_expr(ts, p, 11)
    }
}

/// After `left`, the operators of `level` and their right operands, folded
/// to the left.
pub open spec fn parse_tail(ts: Seq<TokenView>, left: ExprView, p: int, level: nat) -> Result<
    (ExprView, int),
    int,
>
    decreases ts.len() - p, level, 0nat,
{
    if 0 <= p < ts.len() && !at_end(ts, p) && level_operator(level, ts[p].kind) && level >= 5 {
        match parse_expr(ts, p + 1, (level - 1) as nat) {
            Err(q) => Err(q),
            Ok((right, q)) => if p < q < ts.len() {
                parse_tail(ts, combine(level, left, ts[p], right), q, level)
            } else {
                Err(q)
            },
        }
    } else {
        Ok((left, p))
    }
}

/// `{ initializer; while (condition) { body; increment; } }`, without the
/// parts that are absent.
pub open spec fn for_model(
    initializer: Option<StmtView>,
    condition: ExprView,
    increment: Option<ExprView>,
    body: StmtView,
) -> StmtView {
    let inner = match increment {
        Some(inc) => StmtView::Block(seq![body, StmtView::Expression(inc)]),
        None => body,
    };
    let w = StmtView::While(condition, Box::new(inner));
    match initializer {
        Some(init) => StmtView::Block(seq![init, w]),
        None => w,
    }
}

/// declaration -> var_declaration | statement
pub open spec fn parse_declaration(ts: Seq<TokenView>, p: int) -> Result<(StmtView, int), int>
    decreases ts.len() - p, 20nat,
{
    if !(0 <= p < ts.len()) {
        Err(p)
    } else if is_at(ts, p, TokenType::Var) {
        parse_var(ts, p + 1)
    } else {
        parse_statement(ts, p)
    }
}

/// identifier ( "=" expression )? ";", after `var`.
pub open spec fn parse_var(ts: Seq<TokenView>, p: int) -> Result<(StmtView, int), int>
    decreases ts.len() - p, 18nat,
{
    if !is_at(ts, p, TokenType::Identifier) {
        Err(p)
    } else if is_at(ts, p + 1, TokenType::Equal) {
        match parse_expr(ts, p + 2, 12) {
            Err(q) => Err(q),
            Ok((e, q)) => if is_at(ts, q, TokenType::Semicolon) {
                Ok((StmtView::Var(ts[p], Some(e)), q + 1))
            } else {
                Err(q)
            },
        }
    } else if is_at(ts, p + 1, TokenType::Semicolon) {
        Ok((StmtView::Var(ts[p], None), p + 2))
    } else {
        Err(p + 1)
    }
}

/// statement -> for | if | print | while | block | expression statement
pub open spec fn parse_statement(ts: Seq<TokenView>, p: int) -> Result<(StmtView, int), int>
    decreases ts.len() - p, 19nat,
{
    if !(0 <= p < ts.len()) {
        Err(p)
    } else if is_at(ts, p, TokenType::For) {
        parse_for(ts, p + 1)
    } else if is_at(ts, p, TokenType::If) {
        parse_if(ts, p + 1)
    } else if is_at(ts, p, TokenType::Print) {
        parse_print(ts, p + 1)
    } else if is_at(ts, p, TokenType::While) {
        parse_while(ts, p + 1)
    } else if is_at(ts, p, TokenType::LeftBrace) {
        parse_block(ts, p + 1, seq![])
    } else {
        parse_expression_statement(ts, p)
    }
}

/// "(" initializer condition? ";" increment? ")" statement, after `for`.
pub open spec fn parse_for(ts: Seq<TokenView>, p: int) -> Result<(StmtView, int), int>
    decreases ts.len() - p, 18nat,
{
    if !is_at(ts, p, TokenType::LeftParen) {
        Err(p)
    } else {
        let init: Result<(Option<StmtView>, int), int> = if is_at(ts, p + 1, TokenType::Semicolon) {
            Ok((None, p + 2))
        } else if is_at(ts, p + 1, TokenType::Var) {
            match parse_var(ts, p + 2) {
                Ok((s, q)) => Ok((Some(s), q)),
                Err(q) => Err(q),
            }
        } else {
            match parse_expression_statement(ts, p + 1) {
                Ok((s, q)) => Ok((Some(s), q)),
                Err(q) => Err(q),
            }
        };
        match init {
            Err(q) => Err(q),
            Ok((init, q1)) => {
                let cond: Result<(ExprView, int), int> = if !is_at(ts, q1, TokenType::Semicolon) {
                    parse_expr(ts, q1, 12)
                } else {
                    Ok((ExprView::Literal(Val::Bool(true)), q1))
                };
                match cond {
                    Err(q) => Err(q),
                    Ok((c, q2)) => if !is_at(ts, q2, TokenType::Semicolon) {
                        Err(q2)
                    } else {
                        let inc: Result<(Option<ExprView>, int), int> = if !is_at(
                            ts,
                            q2 + 1,
                            TokenType::RightParen,
                        ) {
                            match parse_expr(ts, q2 + 1, 12) {
                                Ok((e, q)) => Ok((Some(e), q)),
                                Err(q) => Err(q),
                            }
                        } else {
                            Ok((None, q2 + 1))
                        };
                        match inc {
                            Err(q) => Err(q),
                            Ok((inc, q3)) => if !is_at(ts, q3, TokenType::RightParen) {
                                Err(q3)
                            } else if q3 + 1 > p {
                                match parse_statement(ts, q3 + 1) {
                                    Err(q) => Err(q),
                                    Ok((body, q)) => Ok((for_model(init, c, inc, body), q)),
                                }
                            } else {
                                Err(q3)
                            },
                        }
                    },
                }
            },
        }
    }
}

/// "(" expression ")" statement ( "else" statement )?, after `if`.
pub open spec fn parse_if(ts: Seq<TokenView>, p: int) -> Result<(StmtView, int), int>
    decreases ts.len() - p, 18nat,
{
    if !is_at(ts, p, TokenType::LeftParen) {
        Err(p)
    } else {
        match parse_expr(ts, p + 1, 12) {
            Err(q) => Err(q),
            Ok((c, q)) => if !is_at(ts, q, TokenType::RightParen) || q + 1 <= p {
                Err(q)
            } else {
                match parse_statement(ts, q + 1) {
                    Err(r) => Err(r),
                    Ok((t, r)) => if is_at(ts, r, TokenType::Else) && r + 1 > p {
                        match parse_statement(ts, r + 1) {
                            Err(u) => Err(u),
                            Ok((e, u)) => Ok(
                                (StmtView::If(c, Box::new(t), Some(Box::new(e))), u),
                            ),
                        }
                    } else {
                        Ok((StmtView::If(c, Box::new(t), None), r))
                    },
                }
            },
        }
    }
}

/// expression ";", after `print`.
pub open spec fn parse_print(ts: Seq<TokenView>, p: int) -> Result<(StmtView, int), int>
    decreases ts.len() - p, 18nat,
{
    match parse_expr(ts, p, 12) {
        Err(q) => Err(q),
        Ok((e, q)) => if is_at(ts, q, TokenType::Semicolon) {
            Ok((StmtView::Print(e), q + 1))
        } else {
            Err(q)
        },
    }
}

/// "(" expression ")" statement, after `while`.
pub open spec fn parse_while(ts: Seq<TokenView>, p: int) -> Result<(StmtView, int), int>
    decreases ts.len() - p, 18nat,
{
    if !is_at(ts, p, TokenType::LeftParen) {
        Err(p)
    } else {
        match parse_expr(ts, p + 1, 12) {
            Err(q) => Err(q),
            Ok((c, q)) => if !is_at(ts, q, TokenType::RightParen) || q + 1 <= p {
                Err(q)
            } else {
                match parse_statement(ts, q + 1) {
                    Err(r) => Err(r),
                    Ok((b, r)) => Ok((StmtView::While(c, Box::new(b)), r)),
                }
            },
        }
    }
}

/// declaration* "}", after `{`, the declarations so far in `acc`.
pub open spec fn parse_block(ts: Seq<TokenView>, p: int, acc: Seq<StmtView>) -> Result<
    (StmtView, int),
    int,
>
    decreases ts.len() - p, 21nat,
{
    if !(0 <= p < ts.len()) {
        Err(p)
    } else if !is_at(ts, p, TokenType::RightBrace) && !at_end(ts, p) {
        match parse_declaration(ts, p) {
            Err(q) => Err(q),
            Ok((s, q)) => if p < q < ts.len() {
                parse_block(ts, q, acc.push(s))
            } else {
                Err(q)
            },
        }
    } else if is_at(ts, p, TokenType::RightBrace) {
        Ok((StmtView::Block(acc), p + 1))
    } else {
        Err(p)
    }
}

/// expression ";"
pub open spec fn parse_expression_statement(ts: Seq<TokenView>, p: int) -> Result<
    (StmtView, int),
    int,
>
    decreases ts.len() - p, 18nat,
{
    match parse_expr(ts, p, 12) {
        Err(q) => Err(q),
        Ok((e, q)) => if is_at(ts, q, TokenType::Semicolon) {
            Ok((StmtView::Expression(e), q + 1))
        } else {
            Err(q)
        },
    }
}

/// Where recovery may stop: the end, just after a `;`, or just before a
/// token that starts a statement.
pub open spec fn boundary(ts: Seq<TokenView>, k: int) -> bool {
    ||| ts[k].kind == TokenType::Eof
    ||| (k > 0 && ts[k - 1].kind == TokenType::Semicolon)
    ||| starts_statement(ts[k].kind)
}

/// The kinds that begin a statement.
pub open spec fn starts_statement(k: TokenType) -> bool {
    match k {
        TokenType::Class | TokenType::Fun | TokenType::Var | TokenType::For | TokenType::If
        | TokenType::While | TokenType::Print | TokenType::Return => true,
        _ => false,
    }
}

/// The first boundary at or after `k`.
pub open spec fn next_boundary(ts: Seq<TokenView>, k: int) -> int
    decreases ts.len() - k,
{
    if !(0 <= k < ts.len()) || boundary(ts, k) {
        k
    } else {
        next_boundary(ts, k + 1)
    }
}

/// Where parsing resumes after a declaration failed at `q`: past the
/// failing token, at the next boundary.
pub open spec fn recover(ts: Seq<TokenView>, q: int) -> int {
    if at_end(ts, q) {
        q
    } else {
        next_boundary(ts, q + 1)
    }
}

/// How many declarations from `p` to the end fail, and are left out.
pub open spec fn dropped(ts: Seq<TokenView>, p: int) -> nat
    decreases ts.len() - p,
{
    if !(0 <= p < ts.len()) || at_end(ts, p) {
        0
    } else {
        match parse_declaration(ts, p) {
            Ok((s, q)) => if p < q < ts.len() {
                dropped(ts, q)
            } else {
                0
            },
            Err(q) => {
                let k = recover(ts, q);
                if p < k < ts.len() {
                    1 + dropped(ts, k)
                } else {
                    1
                }
            },
        }
    }
}

/// The declarations from `p` to the end, after those in `acc`: each that
/// fails is left out, and parsing resumes where recovery stops.
pub open spec fn parse_program(ts: Seq<TokenView>, p: int, acc: Seq<StmtView>) -> Seq<StmtView>
    decreases ts.len() - p,
{
    if !(0 <= p < ts.len()) || at_end(ts, p) {
        acc
    } else {
        match parse_declaration(ts, p) {
            Ok((s, q)) => if p < q < ts.len() {
                parse_program(ts, q, acc.push(s))
            } else {
                acc
            },
            Err(q) => {
                let k = recover(ts, q);
                if p < k < ts.len() {
                    parse_program(ts, k, acc)
                } else {
                    acc
                }
            },
        }
    }
}

/// The diagnostic for the token at `q`.
pub open spec fn diag(ts: Seq<TokenView>, q: int, message: Seq<char>) -> Seq<char> {
    report_text(ts[q].line, location_of(ts[q]), message)
}

/// The diagnostic for the token at `q`, alone.
pub open spec fn one_diag(ts: Seq<TokenView>, q: int, message: Seq<char>) -> Seq<Seq<char>> {
    seq![diag(ts, q, message)]
}

pub broadcast proof fn lemma_concat_assoc(a: Seq<Seq<char>>, b: Seq<Seq<char>>, c: Seq<Seq<char>>)
    ensures
        #[trigger] ((a + b) + c) == a + (b + c),
{
    assert((a + b) + c =~= a + (b + c));
}

pub broadcast proof fn lemma_concat_empty(a: Seq<Seq<char>>)
    ensures
        #[trigger] (a + Seq::<Seq<char>>::empty()) == a,
{
    assert(a + Seq::<Seq<char>>::empty() =~= a);
}

/// The diagnostics that parsing the expression of `level` at `p` reports,
/// in order: a target that cannot be assigned to, and the error that stops
/// the parse.
pub open spec fn expr_diags(ts: Seq<TokenView>, p: int, level: nat) -> Seq<Seq<char>>
    decreases ts.len() - p, level, 1nat,
{
    if !(0 <= p < ts.len()) {
        seq![]
    } else if level <= 3 {
        if is_at(ts, p, TokenType::False) || is_at(ts, p, TokenType::True) || is_at(
            ts,
            p,
            TokenType::Nil,
        ) || is_at(ts, p, TokenType::Number) || is_at(ts, p, TokenType::String_) || is_at(
            ts,
            p,
            TokenType::Identifier,
        ) {
            seq![]
        } else if is_at(ts, p, TokenType::LeftParen) {
            let d = expr_diags(ts, p + 1, 12);
            match parse_expr(ts, p + 1, 12) {
                Err(_) => d,
                Ok((e, q)) => if is_at(ts, q, TokenType::RightParen) {
                    d
                } else {
                    d + one_diag(ts, q, "Expected `)` after expression."@)
                },
            }
        } else {
            one_diag(ts, p, "Expected expression."@)
        }
    } else if level == 4 {
        if is_at(ts, p, TokenType::Bang) || is_at(ts, p, TokenType::Minus) {
            expr_diags(ts, p + 1, 4)
        } else {
            expr_diags(ts, p, 3)
        }
    } else if level <= 10 {
        let d = expr_diags(ts, p, (level - 1) as nat);
        match parse_expr(ts, p, (level - 1) as nat) {
            Err(_) => d,
            Ok((left, q)) => if p <= q < ts.len() {
                d + tail_diags(ts, left, q, level)
            } else {
                d
            },
        }
    } else if level == 11 {
        let d = expr_diags(ts, p, 10);
        match parse_expr(ts, p, 10) {
            Err(_) => d,
            Ok((left, q)) => if is_at(ts, q, TokenType::Equal) && q >= p {
                let d2 = d + expr_diags(ts, q + 1, 11);
                match parse_expr(ts, q + 1, 11) {
                    Err(_) => d2,
                    Ok((value, r)) => match left {
                        ExprView::Variable(name) => d2,
                        _ => d2 + one_diag(ts, q, "Invalid assignment target."@),
                    },
                }
            } else {
                d
            },
        }
    } else {
        expr_diags(ts, p, 11)
    }
}

/// The diagnostics of the operators of `level` and their operands after
/// `left`.
pub open spec fn tail_diags(ts: Seq<TokenView>, left: ExprView, p: int, level: nat) -> Seq<
    Seq<char>,
>
    decreases ts.len() - p, level, 0nat,
{
    if 0 <= p < ts.len() && !at_end(ts, p) && level_operator(level, ts[p].kind) && level >= 5 {
        let d = expr_diags(ts, p + 1, (level - 1) as nat);
        match parse_expr(ts, p + 1, (level - 1) as nat) {
            Err(_) => d,
            Ok((right, q)) => if p < q < ts.len() {
                d + tail_diags(ts, combine(level, left, ts[p], right), q, level)
            } else {
                d
            },
        }
    } else {
        seq![]
    }
}

/// The diagnostics that parsing a declaration at `p` reports, in order.
pub open spec fn decl_diags(ts: Seq<TokenView>, p: int) -> Seq<Seq<char>>
    decreases ts.len() - p, 20nat,
{
    if !(0 <= p < ts.len()) {
        seq![]
    } else if is_at(ts, p, TokenType::Var) {
        var_diags(ts, p + 1)
    } else {
        stmt_diags(ts, p)
    }
}

pub open spec fn var_diags(ts: Seq<TokenView>, p: int) -> Seq<Seq<char>>
    decreases ts.len() - p, 18nat,
{
    if !is_at(ts, p, TokenType::Identifier) {
        one_diag(ts, p, "Expected variable name."@)
    } else if is_at(ts, p + 1, TokenType::Equal) {
        let d = expr_diags(ts, p + 2, 12);
        match parse_expr(ts, p + 2, 12) {
            Err(_) => d,
            Ok((e, q)) => if is_at(ts, q, TokenType::Semicolon) {
                d
            } else {
                d + one_diag(ts, q, "Expected ';' after variable declaration."@)
            },
        }
    } else if is_at(ts, p + 1, TokenType::Semicolon) {
        seq![]
    } else {
        one_diag(ts, p + 1, "Expected ';' after variable declaration."@)
    }
}

pub open spec fn stmt_diags(ts: Seq<TokenView>, p: int) -> Seq<Seq<char>>
    decreases ts.len() - p, 19nat,
{
    if !(0 <= p < ts.len()) {
        seq![]
    } else if is_at(ts, p, TokenType::For) {
        for_diags(ts, p + 1)
    } else if is_at(ts, p, TokenType::If) {
        if_diags(ts, p + 1)
    } else if is_at(ts, p, TokenType::Print) {
        print_diags(ts, p + 1)
    } else if is_at(ts, p, TokenType::While) {
        while_diags(ts, p + 1)
    } else if is_at(ts, p, TokenType::LeftBrace) {
        block_diags(ts, p + 1)
    } else {
        expression_statement_diags(ts, p)
    }
}

pub open spec fn for_diags(ts: Seq<TokenView>, p: int) -> Seq<Seq<char>>
    decreases ts.len() - p, 18nat,
{
    if !is_at(ts, p, TokenType::LeftParen) {
        one_diag(ts, p, "Expect `(` after `for`."@)
    } else {
        let d0: Seq<Seq<char>> = if is_at(ts, p + 1, TokenType::Semicolon) {
            seq![]
        } else if is_at(ts, p + 1, TokenType::Var) {
            var_diags(ts, p + 2)
        } else {
            expression_statement_diags(ts, p + 1)
        };
        let init: Result<int, int> = if is_at(ts, p + 1, TokenType::Semicolon) {
            Ok(p + 2)
        } else if is_at(ts, p + 1, TokenType::Var) {
            match parse_var(ts, p + 2) {
                Ok((s, q)) => Ok(q),
                Err(q) => Err(q),
            }
        } else {
            match parse_expression_statement(ts, p + 1) {
                Ok((s, q)) => Ok(q),
                Err(q) => Err(q),
            }
        };
        match init {
            Err(_) => d0,
            Ok(q1) => {
                let d1: Seq<Seq<char>> = if !is_at(ts, q1, TokenType::Semicolon) {
                    expr_diags(ts, q1, 12)
                } else {
                    seq![]
                };
                let cond: Result<int, int> = if !is_at(ts, q1, TokenType::Semicolon) {
                    match parse_expr(ts, q1, 12) {
                        Ok((c, q)) => Ok(q),
                        Err(q) => Err(q),
                    }
                } else {
                    Ok(q1)
                };
                match cond {
                    Err(_) => d0 + d1,
                    Ok(q2) => if !is_at(ts, q2, TokenType::Semicolon) {
                        d0 + d1 + one_diag(ts, q2, "Expected `;` after `for` condition."@)
                    } else {
                        let d2: Seq<Seq<char>> = if !is_at(ts, q2 + 1, TokenType::RightParen) {
                            expr_diags(ts, q2 + 1, 12)
                        } else {
                            seq![]
                        };
                        let inc: Result<int, int> = if !is_at(ts, q2 + 1, TokenType::RightParen) {
                            match parse_expr(ts, q2 + 1, 12) {
                                Ok((e, q)) => Ok(q),
                                Err(q) => Err(q),
                            }
                        } else {
                            Ok(q2 + 1)
                        };
                        match inc {
                            Err(_) => d0 + d1 + d2,
                            Ok(q3) => if !is_at(ts, q3, TokenType::RightParen) {
                                d0 + d1 + d2 + one_diag(ts, q3, "Expected `)` after `for` clause."@)
                            } else if q3 + 1 > p {
                                d0 + d1 + d2 + stmt_diags(ts, q3 + 1)
                            } else {
                                d0 + d1 + d2
                            },
                        }
                    },
                }
            },
        }
    }
}

pub open spec fn if_diags(ts: Seq<TokenView>, p: int) -> Seq<Seq<char>>
    decreases ts.len() - p, 18nat,
{
    if !is_at(ts, p, TokenType::LeftParen) {
        one_diag(ts, p, "Expected `(` after `if`."@)
    } else {
        let d = expr_diags(ts, p + 1, 12);
        match parse_expr(ts, p + 1, 12) {
            Err(_) => d,
            Ok((c, q)) => if !is_at(ts, q, TokenType::RightParen) || q + 1 <= p {
                d + one_diag(ts, q, "Expected ')' after condition."@)
            } else {
                let d2 = d + stmt_diags(ts, q + 1);
                match parse_statement(ts, q + 1) {
                    Err(_) => d2,
                    Ok((t, r)) => if is_at(ts, r, TokenType::Else) && r + 1 > p {
                        d2 + stmt_diags(ts, r + 1)
                    } else {
                        d2
                    },
                }
            },
        }
    }
}

pub open spec fn print_diags(ts: Seq<TokenView>, p: int) -> Seq<Seq<char>>
    decreases ts.len() - p, 18nat,
{
    let d = expr_diags(ts, p, 12);
    match parse_expr(ts, p, 12) {
        Err(_) => d,
        Ok((e, q)) => if is_at(ts, q, TokenType::Semicolon) {
            d
        } else {
            d + one_diag(ts, q, "Expected `;` after value."@)
        },
    }
}

pub open spec fn while_diags(ts: Seq<TokenView>, p: int) -> Seq<Seq<char>>
    decreases ts.len() - p, 18nat,
{
    if !is_at(ts, p, TokenType::LeftParen) {
        one_diag(ts, p, "Expected `(` after `while`."@)
    } else {
        let d = expr_diags(ts, p + 1, 12);
        match parse_expr(ts, p + 1, 12) {
            Err(_) => d,
            Ok((c, q)) => if !is_at(ts, q, TokenType::RightParen) || q + 1 <= p {
                d + one_diag(ts, q, "Expected ')' after condition."@)
            } else {
                d + stmt_diags(ts, q + 1)
            },
        }
    }
}

pub open spec fn block_diags(ts: Seq<TokenView>, p: int) -> Seq<Seq<char>>
    decreases ts.len() - p, 21nat,
{
    if !(0 <= p < ts.len()) {
        seq![]
    } else if !is_at(ts, p, TokenType::RightBrace) && !at_end(ts, p) {
        let d = decl_diags(ts, p);
        match parse_declaration(ts, p) {
            Err(_) => d,
            Ok((s, q)) => if p < q < ts.len() {
                d + block_diags(ts, q)
            } else {
                d
            },
        }
    } else if is_at(ts, p, TokenType::RightBrace) {
        seq![]
    } else {
        one_diag(ts, p, "Expected `}` after block."@)
    }
}

pub open spec fn expression_statement_diags(ts: Seq<TokenView>, p: int) -> Seq<Seq<char>>
    decreases ts.len() - p, 18nat,
{
    let d = expr_diags(ts, p, 12);
    match parse_expr(ts, p, 12) {
        Err(_) => d,
        Ok((e, q)) => if is_at(ts, q, TokenType::Semicolon) {
            d
        } else {
            d + one_diag(ts, q, "Expected `;` after expression."@)
        },
    }
}

/// The diagnostics that parsing the declarations from `p` to the end
/// reports, in order.
pub open spec fn program_diags(ts: Seq<TokenView>, p: int) -> Seq<Seq<char>>
    decreases ts.len() - p,
{
    if !(0 <= p < ts.len()) || at_end(ts, p) {
        seq![]
    } else {
        let d = decl_diags(ts, p);
        match parse_declaration(ts, p) {
            Ok((s, q)) => if p < q < ts.len() {
                d + program_diags(ts, q)
            } else {
                d
            },
            Err(q) => {
                let k = recover(ts, q);
                if p < k < ts.len() {
                    d + program_diags(ts, k)
                } else {
                    d
                }
            },
        }
    }
}

} // verus!
