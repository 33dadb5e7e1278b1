//! The evaluator: walks the statement tree over a stack of scope frames.
//!
//! Its meaning is given by the spec functions `eval` (expressions) and
//! `exec_stmt` (statements); the executable evaluator is proved to compute
//! exactly what they say. A runtime error is not recovered: it ends the run.
//! Each `while` iteration spends one step of a budget that the caller sets,
//! so that every run ends. Nesting depth is bounded only by the call stack:
//! each nested block, branch or subexpression takes one more frame.
use vstd::prelude::*;

use crate::environment::{assign, define, find, lookup, scope_of, undefined_message, Environment, FrameView};
use crate::error::Error;
use crate::expr::Expr;
use crate::number::Number;
use crate::stmt::Stmt;
use crate::text::{text_of_str, texts};
use crate::token::{Token, TokenType, TokenView, Val, Value};

verus! {

/// Why evaluation stopped.
pub enum Fault {
    /// A runtime error at a token, with its message.
    At(TokenView, Seq<char>),
    /// The step budget ran out.
    StepLimit,
}

/// What a run has: its scopes, the lines printed so far, and the loop
/// iterations it may still take.
pub struct State {
    pub env: Seq<FrameView>,
    pub out: Seq<Seq<char>>,
    pub steps: nat,
}

pub open spec fn fault_of(e: Error) -> Fault {
    match e {
        Error::RuntimeError { token, message } => Fault::At(token@, message@),
        _ => Fault::StepLimit,
    }
}

/// An error that evaluation can end with.
pub open spec fn is_runtime(e: Error) -> bool {
    e is RuntimeError || e is StepLimit
}

pub open spec fn operand_message() -> Seq<char> {
    "Operand(s) must be a number."@
}

pub open spec fn divide_message() -> Seq<char> {
    "Divide by zero."@
}

pub open spec fn range_message() -> Seq<char> {
    "Number out of range."@
}

pub open spec fn uninitialized_message() -> Seq<char> {
    "Variable not initialized."@
}

/// A number result, or the error for one that does not fit.
pub open spec fn arith(op: TokenView, r: Option<Number>) -> Result<Val, Fault> {
    match r {
        Some(n) => Ok(Val::Num(n)),
        None => Err(Fault::At(op, range_message())),
    }
}

/// The value of `l op r`, both operands evaluated.
pub open spec fn binary_value(op: TokenView, l: Val, r: Val) -> Result<Val, Fault> {
    match op.kind {
        TokenType::Plus => match (l, r) {
            (Val::Num(a), Val::Num(b)) => arith(op, a.spec_add(b)),
            _ => Ok(Val::Str(l.text() + r.text())),
        },
        TokenType::EqualEqual => Ok(Val::Bool(l.equals(r))),
        TokenType::BangEqual => Ok(Val::Bool(!l.equals(r))),
        _ => match (l, r) {
            (Val::Num(a), Val::Num(b)) => match op.kind {
                TokenType::Minus => arith(op, a.spec_sub(b)),
                TokenType::Star => arith(op, a.spec_mul(b)),
                TokenType::Slash => if b.is_zero() {
                    Err(Fault::At(op, divide_message()))
                } else {
                    arith(op, a.spec_div(b))
                },
                TokenType::Greater => Ok(Val::Bool(b.spec_lt(a))),
                TokenType::GreaterEqual => Ok(Val::Bool(!a.spec_lt(b))),
                TokenType::Less => Ok(Val::Bool(a.spec_lt(b))),
                TokenType::LessEqual => Ok(Val::Bool(!b.spec_lt(a))),
                _ => Err(Fault::At(op, operand_message())),
            },
            _ => Err(Fault::At(op, operand_message())),
        },
    }
}

/// The value of `op r`.
pub open spec fn unary_value(op: TokenView, r: Val) -> Result<Val, Fault> {
    if op.kind == TokenType::Bang {
        Ok(Val::Bool(!r.truthy()))
    } else {
        match r {
            Val::Num(n) => Ok(Val::Num(n.spec_neg())),
            _ => Err(Fault::At(op, operand_message())),
        }
    }
}

/// Evaluates `e` in `env`: its value or the error that stopped it, and the
/// scopes after the assignments it made. Operands are evaluated left to
/// right; `and` and `or` evaluate their right operand only when the left
/// does not decide, and give the deciding operand's own value.
pub open spec fn eval(e: &Expr, env: Seq<FrameView>) -> (Result<Val, Fault>, Seq<FrameView>)
    decreases e,
{
    match e {
        Expr::Literal { value } => (Ok(value@), env),
        Expr::Grouping { expression } => eval(expression, env),
        Expr::Unary { operator, right } => {
            let (r, env1) = eval(right, env);
            match r {
                Err(f) => (Err(f), env1),
                Ok(v) => (unary_value(operator@, v), env1),
            }
        },
        Expr::Binary { left, operator, right } => {
            let (l, env1) = eval(left, env);
            match l {
                Err(f) => (Err(f), env1),
                Ok(a) => {
                    let (r, env2) = eval(right, env1);
                    match r {
                        Err(f) => (Err(f), env2),
                        Ok(b) => (binary_value(operator@, a, b), env2),
                    }
                },
            }
        },
        Expr::Logical { left, operator, right } => {
            let (l, env1) = eval(left, env);
            match l {
                Err(f) => (Err(f), env1),
                Ok(a) => if (operator.type_ == TokenType::Or) == a.truthy() {
                    (Ok(a), env1)
                } else {
                    eval(right, env1)
                },
            }
        },
        Expr::Variable { name } => match lookup(env, name.lexeme@) {
            None => (Err(Fault::At(name@, undefined_message(name.lexeme@))), env),
            Some(None) => (Err(Fault::At(name@, uninitialized_message())), env),
            Some(Some(v)) => (Ok(v), env),
        },
        Expr::Assign { name, value } => {
            let (r, env1) = eval(value, env);
            match r {
                Err(f) => (Err(f), env1),
                Ok(v) => match assign(env1, name.lexeme@, v) {
                    None => (Err(Fault::At(name@, undefined_message(name.lexeme@))), env1),
                    Some(env2) => (Ok(v), env2),
                },
            }
        },
    }
}

pub open spec fn block_rank(s: &Stmt) -> nat {
    match s {
        Stmt::Block { statements } => statements@.len() + 1,
        _ => 0,
    }
}

pub open spec fn with_env(st: State, env: Seq<FrameView>) -> State {
    State { env, ..st }
}

/// Runs `s` from `st`: the error that stopped it, if any, and the state
/// after it. A block runs in a new innermost frame, which is dropped however
/// the block ends.
pub open spec fn exec_stmt(s: &Stmt, st: State) -> (Result<(), Fault>, State)
    decreases s, block_rank(s), st.steps,
{
    match s {
        Stmt::Expression { expression } => {
            let (r, env1) = eval(expression, st.env);
            match r {
                Err(f) => (Err(f), with_env(st, env1)),
                Ok(_) => (Ok(()), with_env(st, env1)),
            }
        },
        Stmt::Print { expression } => {
            let (r, env1) = eval(expression, st.env);
            match r {
                Err(f) => (Err(f), with_env(st, env1)),
                Ok(v) => (Ok(()), State { env: env1, out: st.out.push(v.text()), steps: st.steps }),
            }
        },
        Stmt::Var { name, initializer } => match initializer {
            None => (Ok(()), with_env(st, define(st.env, name.lexeme@, None))),
            Some(e) => {
                let (r, env1) = eval(e, st.env);
                match r {
                    Err(f) => (Err(f), with_env(st, env1)),
                    Ok(v) => (Ok(()), with_env(st, define(env1, name.lexeme@, Some(v)))),
                }
            },
        },
        Stmt::Block { statements } => {
            let (r, st1) = exec_seq(s, 0, with_env(st, st.env.push(Seq::empty())));
            (r, with_env(st1, st1.env.drop_last()))
        },
        Stmt::If { condition, then_branch, else_branch } => {
            let (r, env1) = eval(condition, st.env);
            match r {
                Err(f) => (Err(f), with_env(st, env1)),
                Ok(c) => if c.truthy() {
                    exec_stmt(then_branch, with_env(st, env1))
                } else {
                    match else_branch {
                        Some(b) => exec_stmt(b, with_env(st, env1)),
                        None => (Ok(()), with_env(st, env1)),
                    }
                },
            }
        },
        Stmt::While { condition, body } => {
            if st.steps == 0 {
                (Err(Fault::StepLimit), st)
            } else {
                let st0 = State { steps: (st.steps - 1) as nat, ..st };
                let (r, env1) = eval(condition, st0.env);
                match r {
                    Err(f) => (Err(f), with_env(st0, env1)),
                    Ok(c) => if !c.truthy() {
                        (Ok(()), with_env(st0, env1))
                    } else {
                        let (rb, st2) = exec_stmt(body, with_env(st0, env1));
                        match rb {
                            Err(f) => (Err(f), st2),
                            Ok(_) => if st2.steps < st.steps {
                                exec_stmt(s, st2)
                            } else {
                                (Ok(()), st2)
                            },
                        }
                    },
                }
            }
        },
    }
}

/// Runs the statements of block `s` from the `i`-th on, stopping at the
/// first error.
pub open spec fn exec_seq(s: &Stmt, i: int, st: State) -> (Result<(), Fault>, State)
    decreases s, (if 0 <= i < block_rank(s) { block_rank(s) - 1 - i } else { 0 }), st.steps,
{
    match s {
        Stmt::Block { statements } => if 0 <= i < statements@.len() {
            let (r, st1) = exec_stmt(&statements@[i], st);
            match r {
                Err(f) => (Err(f), st1),
                Ok(_) => exec_seq(s, i + 1, st1),
            }
        } else {
            (Ok(()), st)
        },
        _ => (Ok(()), st),
    }
}

/// Runs a program: its statements in order, stopping at the first error.
pub open spec fn run(stmts: Seq<Stmt>, st: State) -> (Result<(), Fault>, State)
    decreases stmts.len(),
{
    if stmts.len() == 0 {
        (Ok(()), st)
    } else {
        let (r, st1) = exec_stmt(&stmts[0], st);
        match r {
            Err(f) => (Err(f), st1),
            Ok(_) => run(stmts.drop_first(), st1),
        }
    }
}

pub open spec fn value_outcome(r: Result<Value, Error>) -> Result<Val, Fault> {
    match r {
        Ok(v) => Ok(v@),
        Err(e) => Err(fault_of(e)),
    }
}

pub open spec fn unit_outcome(r: Result<(), Error>) -> Result<(), Fault> {
    match r {
        Ok(_) => Ok(()),
        Err(e) => Err(fault_of(e)),
    }
}

fn runtime_error(token: &Token, message: &str) -> (r: Error)
    ensures
        fault_of(r) == Fault::At(token@, message@),
        r is RuntimeError,
{
    Error::RuntimeError { token: token.duplicate(), message: text_of_str(message) }
}

fn number_result(operator: &Token, r: Option<Number>) -> (res: Result<Value, Error>)
    requires
        r matches Some(n) ==> n.wf(),
    ensures
        res matches Err(e) ==> is_runtime(e),
        value_outcome(res) == arith(operator@, r),
        res matches Ok(v) ==> v@.wf(),
{
    match r {
        Some(n) => Ok(Value::Number(n)),
        None => Err(runtime_error(operator, "Number out of range.")),
    }
}

/// The value of `l op r`, for the operators of binary nodes.
pub fn binary_op(operator: &Token, l: &Value, r: &Value) -> (res: Result<Value, Error>)
    requires
        l@.wf(),
        r@.wf(),
    ensures
        res matches Err(e) ==> is_runtime(e),
        value_outcome(res) == binary_value(operator@, l@, r@),
        res matches Ok(v) ==> v@.wf(),
        operator.type_ == TokenType::EqualEqual ==> (res matches Ok(v) && v@ == Val::Bool(
            l@.equals(r@),
        )),
        operator.type_ == TokenType::BangEqual ==> (res matches Ok(v) && v@ == Val::Bool(
            !l@.equals(r@),
        )),
        operator.type_ == TokenType::EqualEqual && !same_kind(l@, r@) ==> (res matches Ok(v) && v@
            == Val::Bool(false)),
        operator.type_ == TokenType::BangEqual && !same_kind(l@, r@) ==> (res matches Ok(v) && v@
            == Val::Bool(true)),
{
    match operator.type_ {
        TokenType::Plus => match (l, r) {
            (Value::Number(a), Value::Number(b)) => number_result(operator, a.add(b)),
            _ => {
                let mut text = l.to_string();
                let right = r.to_string();
                text.append(right.as_str());
                Ok(Value::String_(text))
            },
        },
        TokenType::EqualEqual => Ok(Value::Bool(l.equals(r))),
        TokenType::BangEqual => Ok(Value::Bool(!l.equals(r))),
        _ => match (l, r) {
            (Value::Number(a), Value::Number(b)) => match operator.type_ {
                TokenType::Minus => number_result(operator, a.sub(b)),
                TokenType::Star => number_result(operator, a.mul(b)),
                TokenType::Slash => if b.zero_test() {
                    Err(runtime_error(operator, "Divide by zero."))
                } else {
                    number_result(operator, a.div(b))
                },
                TokenType::Greater => Ok(Value::Bool(b.less(a))),
                TokenType::GreaterEqual => Ok(Value::Bool(!a.less(b))),
                TokenType::Less => Ok(Value::Bool(a.less(b))),
                TokenType::LessEqual => Ok(Value::Bool(!b.less(a))),
                _ => Err(runtime_error(operator, "Operand(s) must be a number.")),
            },
            _ => Err(runtime_error(operator, "Operand(s) must be a number.")),
        },
    }
}

/// The value of `op r`, for the operators of unary nodes.
pub fn unary_op(operator: &Token, r: &Value) -> (res: Result<Value, Error>)
    requires
        r@.wf(),
    ensures
        res matches Err(e) ==> is_runtime(e),
        value_outcome(res) == unary_value(operator@, r@),
        res matches Ok(v) ==> v@.wf(),
{
    if operator.type_ == TokenType::Bang {
        Ok(Value::Bool(!r.is_truthy()))
    } else {
        match r {
            Value::Number(n) => Ok(Value::Number(n.neg())),
            _ => Err(runtime_error(operator, "Operand(s) must be a number.")),
        }
    }
}

pub struct Interpreter {
    pub environment: Environment,
    output: Vec<String>,
    steps: u64,
}

impl Interpreter {
    pub closed spec fn inv(&self) -> bool {
        self.environment.inv()
    }

    /// The state of the run, as `exec_stmt` sees it.
    pub closed spec fn state(&self) -> State {
        State { env: self.environment@, out: texts(self.output@), steps: self.steps as nat }
    }

    /// An interpreter over `environment` whose loops may run as long as the
    /// machine does.
    pub fn new(environment: Environment) -> (r: Interpreter)
        requires
            environment.inv(),
        ensures
            r.inv(),
            r.state() == (State { env: environment@, out: seq![], steps: u64::MAX as nat }),
    {
        Interpreter::with_step_limit(environment, u64::MAX)
    }

    /// An interpreter over `environment` that allows `steps` loop iterations
    /// in all.
    pub fn with_step_limit(environment: Environment, steps: u64) -> (r: Interpreter)
        requires
            environment.inv(),
        ensures
            r.inv(),
            r.state() == (State { env: environment@, out: seq![], steps: steps as nat }),
    {
        let r = Interpreter { environment, output: Vec::new(), steps };
        assert(texts(r.output@) =~= seq![]);
        r
    }

    /// The lines printed so far.
    pub fn output(&self) -> (r: &Vec<String>)
        ensures
            texts(r@) == self.state().out,
    {
        &self.output
    }

    /// Hands over the lines printed so far, leaving none.
    pub fn take_output(&mut self) -> (r: Vec<String>)
        requires
            old(self).inv(),
        ensures
            final(self).inv(),
            texts(r@) == old(self).state().out,
            final(self).state() == (State { out: seq![], ..old(self).state() }),
    {
        let mut taken: Vec<String> = Vec::new();
        std::mem::swap(&mut taken, &mut self.output);
        assert(texts(self.output@) =~= seq![]);
        taken
    }

    /// Runs the statements in order. The first runtime error stops the run
    /// and is returned; what ran before it keeps its effects.
    pub fn interpret(&mut self, statements: &Vec<Stmt>) -> (r: Result<(), Error>)
        requires
            old(self).inv(),
            forall|i: int| 0 <= i < statements@.len() ==> (#[trigger] statements@[i]).wf(),
        ensures
            r matches Err(e) ==> is_runtime(e),
            final(self).inv(),
            (unit_outcome(r), final(self).state()) == run(statements@, old(self).state()),
    {
        let mut i: usize = 0;
        assert(statements@.skip(0) =~= statements@);
        while i < statements.len()
            invariant
                self.inv(),
                i <= statements@.len(),
                forall|j: int| 0 <= j < statements@.len() ==> (#[trigger] statements@[j]).wf(),
                run(statements@.skip(i as int), self.state()) == run(statements@, old(self).state()),
            decreases statements@.len() - i,
        {
            assert(statements@.skip(i as int).drop_first() =~= statements@.skip(i + 1));
            assert(statements@.skip(i as int)[0] == statements@[i as int]);
            match self.execute(&statements[i]) {
                Err(e) => {
                    return Err(e);
                },
                Ok(()) => {},
            }
            i = i + 1;
        }
        assert(statements@.skip(i as int) =~= Seq::<Stmt>::empty());
        Ok(())
    }

    /// Runs one statement.
    pub fn execute(&mut self, s: &Stmt) -> (r: Result<(), Error>)
        requires
            old(self).inv(),
            s.wf(),
        ensures
            r matches Err(e) ==> is_runtime(e),
            final(self).inv(),
            (unit_outcome(r), final(self).state()) == exec_stmt(s, old(self).state()),
            final(self).state().env.len() == old(self).state().env.len(),
            final(self).state().steps <= old(self).state().steps,
        decreases s, block_rank(s), old(self).state().steps,
    {
        let ghost st = self.state();
        match s {
            Stmt::Expression { expression } => {
                match self.evaluate(expression) {
                    Err(e) => Err(e),
                    Ok(_) => Ok(()),
                }
            },
            Stmt::Print { expression } => {
                match self.evaluate(expression) {
                    Err(e) => Err(e),
                    Ok(v) => {
                        let line = v.to_string();
                        let ghost before = self.output@;
                        self.output.push(line);
                        assert(texts(self.output@) =~= texts(before).push(v@.text()));
                        Ok(())
                    },
                }
            },
            Stmt::Var { name, initializer } => {
                match initializer {
                    None => {
                        self.environment.define(name.lexeme.clone(), None);
                        Ok(())
                    },
                    Some(e) => {
                        match self.evaluate(e) {
                            Err(err) => Err(err),
                            Ok(v) => {
                                self.environment.define(name.lexeme.clone(), Some(&v));
                                Ok(())
                            },
                        }
                    },
                }
            },
            Stmt::Block { statements } => {
                self.environment.push_frame();
                let r = self.execute_block(s);
                self.environment.pop_frame();
                r
            },
            Stmt::If { condition, then_branch, else_branch } => {
                match self.evaluate(condition) {
                    Err(e) => Err(e),
                    Ok(c) => {
                        if c.is_truthy() {
                            self.execute(then_branch)
                        } else {
                            match else_branch {
                                Some(b) => self.execute(b),
                                None => Ok(()),
                            }
                        }
                    },
                }
            },
            Stmt::While { condition, body } => {
                loop
                    invariant
                        self.inv(),
                        s.wf(),
                        *s == (Stmt::While { condition: *condition, body: *body }),
                        st == old(self).state(),
                        exec_stmt(s, self.state()) == exec_stmt(s, st),
                        self.state().env.len() == st.env.len(),
                        self.steps <= st.steps,
                    decreases self.steps,
                {
                    if self.steps == 0 {
                        return Err(Error::StepLimit);
                    }
                    let ghost st1 = self.state();
                    self.steps = self.steps - 1;
                    let c = match self.evaluate(condition) {
                        Err(e) => {
                            return Err(e);
                        },
                        Ok(c) => c,
                    };
                    if !c.is_truthy() {
                        return Ok(());
                    }
                    match self.execute(body) {
                        Err(e) => {
                            return Err(e);
                        },
                        Ok(()) => {},
                    }
                    assert(self.state().steps < st1.steps);
                }
            },
        }
    }

    /// Runs the statements of block `s` in the current innermost frame,
    /// stopping at the first error.
    fn execute_block(&mut self, s: &Stmt) -> (r: Result<(), Error>)
        requires
            old(self).inv(),
            s.wf(),
            s is Block,
        ensures
            r matches Err(e) ==> is_runtime(e),
            final(self).inv(),
            (unit_outcome(r), final(self).state()) == exec_seq(s, 0, old(self).state()),
            final(self).state().env.len() == old(self).state().env.len(),
            final(self).state().steps <= old(self).state().steps,
        decreases s, block_rank(s) - 1, old(self).state().steps,
    {
        let ghost st = self.state();
        match s {
            Stmt::Block { statements } => {
                let mut i: usize = 0;
                while i < statements.len()
                    invariant
                        self.inv(),
                        s.wf(),
                        *s == (Stmt::Block { statements: *statements }),
                        i <= statements@.len(),
                        st == old(self).state(),
                        exec_seq(s, i as int, self.state()) == exec_seq(s, 0, st),
                        self.state().env.len() == st.env.len(),
                        self.steps <= st.steps,
                    decreases statements@.len() - i,
                {
                    let ghost cur = self.state();
                    match self.execute(&statements[i]) {
                        Err(e) => {
                            assert(exec_seq(s, i as int, cur) == (Err::<(), Fault>(fault_of(e)), self.state()));
                            return Err(e);
                        },
                        Ok(()) => {},
                    }
                    assert(exec_seq(s, i as int, cur) == exec_seq(s, i + 1, self.state()));
                    i = i + 1;
                }
                Ok(())
            },
            _ => Ok(()),
        }
    }

    /// Evaluates one expression.
    pub fn evaluate(&mut self, e: &Expr) -> (r: Result<Value, Error>)
        requires
            old(self).inv(),
            e.wf(),
        ensures
            r matches Err(e) ==> is_runtime(e),
            final(self).inv(),
            (value_outcome(r), final(self).state().env) == eval(e, old(self).state().env),
            final(self).state().out == old(self).state().out,
            final(self).state().steps == old(self).state().steps,
            final(self).state().env.len() == old(self).state().env.len(),
            r matches Ok(v) ==> v@.wf(),
        decreases e,
    {
        match e {
            Expr::Literal { value } => Ok(Value::from_literal(value)),
            Expr::Grouping { expression } => self.evaluate(expression),
            Expr::Unary { operator, right } => {
                match self.evaluate(right) {
                    Err(err) => Err(err),
                    Ok(v) => unary_op(operator, &v),
                }
            },
            Expr::Binary { left, operator, right } => {
                let a = match self.evaluate(left) {
                    Err(err) => {
                        return Err(err);
                    },
                    Ok(v) => v,
                };
                match self.evaluate(right) {
                    Err(err) => Err(err),
                    Ok(b) => binary_op(operator, &a, &b),
                }
            },
            Expr::Logical { left, operator, right } => {
                let a = match self.evaluate(left) {
                    Err(err) => {
                        return Err(err);
                    },
                    Ok(v) => v,
                };
                if (operator.type_ == TokenType::Or) == a.is_truthy() {
                    Ok(a)
                } else {
                    self.evaluate(right)
                }
            },
            Expr::Variable { name } => {
                match self.environment.get(name) {
                    Err(err) => Err(err),
                    Ok(None) => Err(runtime_error(name, "Variable not initialized.")),
                    Ok(Some(v)) => Ok(v),
                }
            },
            Expr::Assign { name, value } => {
                let v = match self.evaluate(value) {
                    Err(err) => {
                        return Err(err);
                    },
                    Ok(v) => v,
                };
                match self.environment.assign(name, &v) {
                    Err(err) => Err(err),
                    Ok(()) => Ok(v),
                }
            },
        }
    }
}

/// Whether two values are of the same kind.
pub open spec fn same_kind(a: Val, b: Val) -> bool {
    match (a, b) {
        (Val::Num(_), Val::Num(_)) | (Val::Str(_), Val::Str(_)) | (Val::Bool(_), Val::Bool(_))
        | (Val::Nil, Val::Nil) => true,
        _ => false,
    }
}

/// `==` never coerces: values of different kinds are unequal, and `!=`
/// holds between them.
pub proof fn lemma_equality_without_coercion(op: TokenView, a: Val, b: Val)
    requires
        !same_kind(a, b),
    ensures
        op.kind == TokenType::EqualEqual ==> binary_value(op, a, b) == Ok::<Val, Fault>(Val::Bool(false)),
        op.kind == TokenType::BangEqual ==> binary_value(op, a, b) == Ok::<Val, Fault>(Val::Bool(true)),
{
}

/// Dividing by zero is a runtime error at the operator, whatever the
/// dividend.
pub proof fn lemma_divide_by_zero(op: TokenView, a: Number, b: Number)
    requires
        op.kind == TokenType::Slash,
        b.is_zero(),
    ensures
        binary_value(op, Val::Num(a), Val::Num(b)) == Err::<Val, Fault>(Fault::At(op, divide_message())),
{
}

/// Only `nil` and `false` are falsy: `!v` is true exactly for them, and
/// false for every number (zero included) and every string (the empty one
/// included).
pub proof fn lemma_truthiness(op: TokenView, v: Val)
    requires
        op.kind == TokenType::Bang,
    ensures
        unary_value(op, v) == Ok::<Val, Fault>(Val::Bool(v == Val::Nil || v == Val::Bool(false))),
{
}

/// `+` on anything but two numbers joins the texts of its operands, and
/// never fails.
pub proof fn lemma_mixed_plus(op: TokenView, a: Val, b: Val)
    requires
        op.kind == TokenType::Plus,
        !(a is Num && b is Num),
    ensures
        binary_value(op, a, b) == Ok::<Val, Fault>(Val::Str(a.text() + b.text())),
{
}

/// Reading a variable that was declared without a value is an error at its
/// name.
pub proof fn lemma_uninitialized_read(e: &Expr, env: Seq<FrameView>)
    requires
        e is Variable,
        lookup(env, e->Variable_name.lexeme@) == Some(None::<Val>),
    ensures
        eval(e, env) == (Err::<Val, Fault>(Fault::At(e->Variable_name@, uninitialized_message())), env),
{
}

/// Reading a name that no frame binds is an error at the name, which says
/// it is undefined.
pub proof fn lemma_undefined_read(e: &Expr, env: Seq<FrameView>)
    requires
        e is Variable,
        lookup(env, e->Variable_name.lexeme@) is None,
    ensures
        eval(e, env) == (Err::<Val, Fault>(
            Fault::At(e->Variable_name@, undefined_message(e->Variable_name.lexeme@)),
        ), env),
{
}

/// A declaration binds in the innermost frame only: the frames around it
/// are untouched.
pub proof fn lemma_define_keeps_outer_frames(env: Seq<FrameView>, name: Seq<char>, value: Option<Val>)
    requires
        env.len() > 0,
    ensures
        define(env, name, value).len() == env.len(),
        define(env, name, value).drop_last() == env.drop_last(),
{
    assert(define(env, name, value).drop_last() =~= env.drop_last());
}

/// A declaration in a block's new frame shadows any outer binding of the
/// name while the block runs; dropping the frame when the block ends gives
/// back the scopes exactly as they were.
pub proof fn lemma_shadow_then_restore(env: Seq<FrameView>, name: Seq<char>, value: Option<Val>)
    ensures
        lookup(define(env.push(Seq::empty()), name, value), name) == Some(value),
        define(env.push(Seq::empty()), name, value).drop_last() == env,
{
    let inner = env.push(Seq::<(Seq<char>, Option<Val>)>::empty());
    let d = define(inner, name, value);
    let f = seq![(name, value)];
    assert(find(Seq::<(Seq<char>, Option<Val>)>::empty(), name) == -1);
    assert(Seq::<(Seq<char>, Option<Val>)>::empty().push((name, value)) =~= f);
    assert(d.last() == f);
    assert(f.drop_last() =~= Seq::<(Seq<char>, Option<Val>)>::empty());
    assert(find(f, name) == 0);
    assert(scope_of(d, name) == d.len() - 1);
    assert(d.drop_last() =~= env);
}

/// Assignment inside a new, empty frame reaches the frame that declares the
/// name, as if the new frame were not there.
pub proof fn lemma_assign_through_new_frame(env: Seq<FrameView>, name: Seq<char>, value: Val)
    ensures
        assign(env.push(Seq::empty()), name, value) == match assign(env, name, value) {
            Some(e) => Some(e.push(Seq::empty())),
            None => None,
        },
{
    let inner = env.push(Seq::<(Seq<char>, Option<Val>)>::empty());
    assert(inner.drop_last() =~= env);
    assert(find(Seq::<(Seq<char>, Option<Val>)>::empty(), name) == -1);
    assert(scope_of(inner, name) == scope_of(env, name));
    crate::environment::lemma_scope_of(env, name);
    let i = scope_of(env, name);
    if i >= 0 {
        assert(inner[i] == env[i]);
        assert(inner.update(i, inner[i].update(find(inner[i], name), (name, Some(value))))
            =~= env.update(i, env[i].update(find(env[i], name), (name, Some(value)))).push(
            Seq::empty(),
        ));
    }
}

/// Evaluating an expression never adds or drops a frame.
pub proof fn lemma_eval_keeps_depth(e: &Expr, env: Seq<FrameView>)
    ensures
        eval(e, env).1.len() == env.len(),
    decreases e,
{
    match e {
        Expr::Literal { .. } | Expr::Variable { .. } => {},
        Expr::Grouping { expression } => lemma_eval_keeps_depth(expression, env),
        Expr::Unary { operator, right } => lemma_eval_keeps_depth(right, env),
        Expr::Binary { left, operator, right } => {
            lemma_eval_keeps_depth(left, env);
            lemma_eval_keeps_depth(right, eval(left, env).1);
        },
        Expr::Logical { left, operator, right } => {
            lemma_eval_keeps_depth(left, env);
            lemma_eval_keeps_depth(right, eval(left, env).1);
        },
        Expr::Assign { name, value } => {
            lemma_eval_keeps_depth(value, env);
            crate::environment::lemma_scope_of(eval(value, env).1, name.lexeme@);
        },
    }
}

/// Running a statement leaves as many frames as it found: a block's frame
/// is dropped however the block ends, so whatever it declared is gone and
/// the names it shadowed are visible again.
pub proof fn lemma_exec_keeps_depth(s: &Stmt, st: State)
    requires
        st.env.len() > 0,
    ensures
        exec_stmt(s, st).1.env.len() == st.env.len(),
    decreases s, block_rank(s), st.steps,
{
    match s {
        Stmt::Expression { expression } => lemma_eval_keeps_depth(expression, st.env),
        Stmt::Print { expression } => lemma_eval_keeps_depth(expression, st.env),
        Stmt::Var { name, initializer } => match initializer {
            None => {},
            Some(e) => lemma_eval_keeps_depth(e, st.env),
        },
        Stmt::Block { statements } => {
            let st0 = with_env(st, st.env.push(Seq::empty()));
            lemma_seq_keeps_depth(s, 0, st0);
        },
        Stmt::If { condition, then_branch, else_branch } => {
            lemma_eval_keeps_depth(condition, st.env);
            let st1 = with_env(st, eval(condition, st.env).1);
            lemma_exec_keeps_depth(then_branch, st1);
            match else_branch {
                Some(b) => lemma_exec_keeps_depth(b, st1),
                None => {},
            }
        },
        Stmt::While { condition, body } => {
            if st.steps > 0 {
                let st0 = State { steps: (st.steps - 1) as nat, ..st };
                lemma_eval_keeps_depth(condition, st0.env);
                let st1 = with_env(st0, eval(condition, st0.env).1);
                lemma_exec_keeps_depth(body, st1);
                let st2 = exec_stmt(body, st1).1;
                if st2.steps < st.steps {
                    lemma_exec_keeps_depth(s, st2);
                }
            }
        },
    }
}

proof fn lemma_seq_keeps_depth(s: &Stmt, i: int, st: State)
    requires
        st.env.len() > 0,
    ensures
        exec_seq(s, i, st).1.env.len() == st.env.len(),
    decreases s, (if 0 <= i < block_rank(s) { block_rank(s) - 1 - i } else { 0 }), st.steps,
{
    match s {
        Stmt::Block { statements } => if 0 <= i < statements@.len() {
            lemma_exec_keeps_depth(&statements@[i], st);
            lemma_seq_keeps_depth(s, i + 1, exec_stmt(&statements@[i], st).1);
        },
        _ => {},
    }
}

} // verus!
