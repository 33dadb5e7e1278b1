//! Tokens, scanned literals and runtime values.
use vstd::prelude::*;

use crate::number::Number;
use crate::text::text_of_str;

verus! {

#[derive(Debug, Clone, Copy, PartialEq, Eq, Structural)]
pub enum TokenType {
    // Single-character tokens.
    LeftParen,
    RightParen,
    LeftBrace,
    RightBrace,
    Comma,
    Dot,
    Minus,
    Plus,
    Semicolon,
    Slash,
    Star,
    // One or two character tokens.
    Bang,
    BangEqual,
    Equal,
    EqualEqual,
    Greater,
    GreaterEqual,
    Less,
    LessEqual,
    // Literals.
    Identifier,
    String_,
    Number,
    // Keywords.
    And,
    Class,
    Else,
    False,
    Fun,
    For,
    If,
    Nil,
    Or,
    Print,
    Return,
    Super,
    This,
    True,
    Var,
    While,
    Eof,
}

/// What a literal or a runtime value is, as mathematics sees it.
pub enum Val {
    Num(Number),
    Str(Seq<char>),
    Bool(bool),
    Nil,
}

/// A constant as written in the source.
#[derive(Debug, Clone)]
pub enum Literal {
    Number(Number),
    String_(String),
    Bool(bool),
    Nil,
}

/// A value produced by evaluation.
#[derive(Debug, Clone)]
pub enum Value {
    Number(Number),
    String_(String),
    Bool(bool),
    Nil,
}

impl View for Literal {
    type V = Val;

    open spec fn view(&self) -> Val {
        match self {
            Literal::Number(n) => Val::Num(*n),
            Literal::String_(s) => Val::Str(s@),
            Literal::Bool(b) => Val::Bool(*b),
            Literal::Nil => Val::Nil,
        }
    }
}

impl View for Value {
    type V = Val;

    open spec fn view(&self) -> Val {
        match self {
            Value::Number(n) => Val::Num(*n),
            Value::String_(s) => Val::Str(s@),
            Value::Bool(b) => Val::Bool(*b),
            Value::Nil => Val::Nil,
        }
    }
}

impl Val {
    /// Numbers inside are well formed.
    pub open spec fn wf(self) -> bool {
        self matches Val::Num(n) ==> n.wf()
    }

    /// `nil` and `false` are falsy; every other value is truthy.
    pub open spec fn truthy(self) -> bool {
        match self {
            Val::Nil => false,
            Val::Bool(b) => b,
            _ => true,
        }
    }

    /// Equality without coercion: values of different kinds are unequal.
    pub open spec fn equals(self, o: Val) -> bool {
        match (self, o) {
            (Val::Num(a), Val::Num(b)) => a.spec_eq(b),
            (Val::Str(a), Val::Str(b)) => a == b,
            (Val::Bool(a), Val::Bool(b)) => a == b,
            (Val::Nil, Val::Nil) => true,
            _ => false,
        }
    }

    /// The text that printing a value shows.
    pub open spec fn text(self) -> Seq<char> {
        match self {
            Val::Num(n) => n.text(),
            Val::Str(s) => s,
            Val::Bool(b) => if b {
                "true"@
            } else {
                "false"@
            },
            Val::Nil => "nil"@,
        }
    }
}

impl Literal {
    pub fn duplicate(&self) -> (r: Literal)
        ensures
            r@ == self@,
    {
        match self {
            Literal::Number(n) => Literal::Number(*n),
            Literal::String_(s) => Literal::String_(s.clone()),
            Literal::Bool(b) => Literal::Bool(*b),
            Literal::Nil => Literal::Nil,
        }
    }

    pub fn to_string(&self) -> (r: String)
        requires
            self@.wf(),
        ensures
            r@ == self@.text(),
    {
        match self {
            Literal::Number(n) => n.to_string(),
            Literal::String_(s) => s.clone(),
            Literal::Bool(b) => if *b {
                text_of_str("true")
            } else {
                text_of_str("false")
            },
            Literal::Nil => text_of_str("nil"),
        }
    }
}

impl Value {
    /// The runtime value of a literal.
    pub fn from_literal(literal: &Literal) -> (r: Value)
        ensures
            r@ == literal@,
    {
        match literal {
            Literal::Number(n) => Value::Number(*n),
            Literal::String_(s) => Value::String_(s.clone()),
            Literal::Bool(b) => Value::Bool(*b),
            Literal::Nil => Value::Nil,
        }
    }

    pub fn duplicate(&self) -> (r: Value)
        ensures
            r@ == self@,
    {
        match self {
            Value::Number(n) => Value::Number(*n),
            Value::String_(s) => Value::String_(s.clone()),
            Value::Bool(b) => Value::Bool(*b),
            Value::Nil => Value::Nil,
        }
    }

    pub fn is_truthy(&self) -> (r: bool)
        ensures
            r == self@.truthy(),
    {
        match self {
            Value::Nil => false,
            Value::Bool(b) => *b,
            _ => true,
        }
    }

    pub fn equals(&self, o: &Value) -> (r: bool)
        requires
            self@.wf(),
            o@.wf(),
        ensures
            r == self@.equals(o@),
    {
        match (self, o) {
            (Value::Number(a), Value::Number(b)) => a.equals(b),
            (Value::String_(a), Value::String_(b)) => *a == *b,
            (Value::Bool(a), Value::Bool(b)) => *a == *b,
            (Value::Nil, Value::Nil) => true,
            _ => false,
        }
    }

    pub fn to_string(&self) -> (r: String)
        requires
            self@.wf(),
        ensures
            r@ == self@.text(),
    {
        match self {
            Value::Number(n) => n.to_string(),
            Value::String_(s) => s.clone(),
            Value::Bool(b) => if *b {
                text_of_str("true")
            } else {
                text_of_str("false")
            },
            Value::Nil => text_of_str("nil"),
        }
    }
}

/// A token as mathematics sees it.
pub struct TokenView {
    pub kind: TokenType,
    pub lexeme: Seq<char>,
    pub literal: Val,
    pub line: nat,
}

#[derive(Debug, Clone)]
pub struct Token {
    pub type_: TokenType,
    pub lexeme: String,
    pub literal: Literal,
    pub line: usize,
}

impl View for Token {
    type V = TokenView;

    open spec fn view(&self) -> TokenView {
        TokenView {
            kind: self.type_,
            lexeme: self.lexeme@,
            literal: self.literal@,
            line: self.line as nat,
        }
    }
}

impl Token {
    pub fn new(type_: TokenType, lexeme: &str, literal: Literal, line: usize) -> (r: Token)
        ensures
            r.type_ == type_,
            r.lexeme@ == lexeme@,
            r.literal@ == literal@,
            r.line == line,
    {
        Token { type_, lexeme: String::from_str(lexeme), literal, line }
    }

    pub fn duplicate(&self) -> (r: Token)
        ensures
            r@ == self@,
    {
        Token {
            type_: self.type_,
            lexeme: self.lexeme.clone(),
            literal: self.literal.duplicate(),
            line: self.line,
        }
    }
}

} // verus!
